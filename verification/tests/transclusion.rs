use homepage_server::escape::{EscapeCounter, EscapeResult};
use homepage_server::transclude::{Step, TranscludeMachine};
use std::collections::HashMap;

/// Drives a machine over an in-memory file tree.
fn expand(root: &str, files: &[(&str, &[u8])]) -> Vec<u8> {
    let fs: HashMap<String, Vec<u8>> = files
        .iter()
        .map(|(p, c)| (p.to_string(), c.to_vec()))
        .collect();
    let mut m = TranscludeMachine::new(root.to_string(), fs.get(root).unwrap().clone());
    let mut out: Vec<u8> = Vec::new();
    loop {
        match m.step() {
            Step::Out(bytes) => out.extend_from_slice(&bytes),
            Step::Include(bytes, path) => {
                out.extend_from_slice(&bytes);
                match fs.get(&path) {
                    Some(content) => m.include_found(content.clone()),
                    None => m.include_missing(),
                }
            }
            Step::Done => break,
        }
    }
    out
}

#[test]
fn escape_counter_classifies_bytes() {
    let mut ec = EscapeCounter::new();
    assert!(matches!(ec.next(b'a'), EscapeResult::Parse));
    assert!(matches!(ec.next(b'\\'), EscapeResult::Skip));
    assert!(matches!(ec.next(b'{'), EscapeResult::NoParse));
    assert!(matches!(ec.next(b'{'), EscapeResult::Parse));
    assert!(matches!(ec.next(b'\\'), EscapeResult::Skip));
    assert!(matches!(ec.next(b'\\'), EscapeResult::NoParse));
    assert!(matches!(ec.next(b'\\'), EscapeResult::Skip));
}

#[test]
fn plain_file_reproduced_byte_for_byte() {
    let content = b"no sentinels at all, just text\nwith lines";
    let out = expand("/home/a/www/p.html", &[("/home/a/www/p.html", content)]);
    assert_eq!(out, content);
}

#[test]
fn non_html_file_passes_through_unparsed() {
    let content = b"curly {braces} and \\ slashes stay";
    let out = expand("/home/a/www/p.txt", &[("/home/a/www/p.txt", content)]);
    assert_eq!(out, content);
}

#[test]
fn simple_transclusion() {
    let out = expand(
        "/home/alice/www/page.html",
        &[
            ("/home/alice/www/page.html", b"A{sub.txt}B"),
            ("/home/alice/www/sub.txt", b"MID"),
        ],
    );
    assert_eq!(out, b"AMIDB");
}

#[test]
fn escaped_directive_is_literal() {
    let out = expand(
        "/home/alice/www/page.html",
        &[("/home/alice/www/page.html", b"A\\{x}B")],
    );
    assert_eq!(out, b"A{x}B");
}

#[test]
fn double_escape_emits_backslash_then_expands() {
    let out = expand(
        "/home/alice/www/page.html",
        &[
            ("/home/alice/www/page.html", b"A\\\\{sub.txt}B"),
            ("/home/alice/www/sub.txt", b"MID"),
        ],
    );
    let expected: Vec<u8> = b"A\\MIDB".to_vec();
    assert_eq!(out, expected);
}

#[test]
fn missing_include_re_emits_directive_literally() {
    let out = expand(
        "/home/alice/www/page.html",
        &[("/home/alice/www/page.html", b"A{nope.txt}B")],
    );
    assert_eq!(out, b"A{nope.txt}B");
}

#[test]
fn unterminated_directive_is_literal() {
    let out = expand(
        "/home/alice/www/page.html",
        &[("/home/alice/www/page.html", b"A{never closed")],
    );
    assert_eq!(out, b"A{never closed");
}

#[test]
fn nested_includes_expand() {
    let out = expand(
        "/home/a/www/top.html",
        &[
            ("/home/a/www/top.html", b"1{mid.html}5"),
            ("/home/a/www/mid.html", b"2{deep.txt}4"),
            ("/home/a/www/deep.txt", b"3"),
        ],
    );
    assert_eq!(out, b"12345");
}

#[test]
fn depth_cap_drops_deep_includes() {
    // a self-including page: ten frames stack up, then includes are dropped
    let out = expand(
        "/r.html",
        &[("/r.html", b"a{/r.html}b")],
    );
    assert_eq!(out, b"aaaaaaaaaabbbbbbbbbb");
}

#[test]
fn include_of_html_is_itself_expanded() {
    let out = expand(
        "/home/a/www/top.html",
        &[
            ("/home/a/www/top.html", b"X{inner.html}Y"),
            ("/home/a/www/inner.html", b"p\\{q}r"),
        ],
    );
    assert_eq!(out, b"Xp{q}rY");
}

#[test]
fn include_of_non_html_is_not_parsed() {
    let out = expand(
        "/home/a/www/top.html",
        &[
            ("/home/a/www/top.html", b"X{inner.txt}Y"),
            ("/home/a/www/inner.txt", b"p{q}r"),
        ],
    );
    assert_eq!(out, b"Xp{q}rY");
}
