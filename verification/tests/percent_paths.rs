use homepage_server::dispatch::{needs_redirect, redirect_location};
use homepage_server::paths::{
    components_of, display_path, is_transclude_enabled, parent_dir, path_ends_with_component,
    resolve_include, resolve_path,
};
use homepage_server::percent::{percent_decode, percent_encode};

#[test]
fn encode_matches_urlencoding_crate() {
    for s in ["", "abc", "a b/c", "x~y-z._", "100%", "ä ö €", "{braces}"] {
        let ours = percent_encode(&s.as_bytes().to_vec());
        let theirs = urlencoding::encode(s);
        assert_eq!(String::from_utf8(ours).unwrap(), theirs.as_ref());
    }
}

#[test]
fn decode_matches_urlencoding_crate_on_lenient_input() {
    for s in ["a%20b", "%41%42", "100%", "%zz", "%4", "%", "a%2fb%ZZ%"] {
        let ours = percent_decode(&s.as_bytes().to_vec());
        let theirs = urlencoding::decode_binary(s.as_bytes());
        assert_eq!(ours.as_slice(), theirs.as_ref());
    }
}

#[test]
fn percent_round_trip_concrete() {
    for s in [&b"a b"[..], b"\x00\xff\x80", b"plain", b"%%%", b"{a}\\"] {
        let enc = percent_encode(&s.to_vec());
        let dec = percent_decode(&enc);
        assert_eq!(dec.as_slice(), s);
    }
}

#[test]
fn resolve_sandboxes_under_home() {
    assert_eq!(resolve_path("/alice/"), "/home/alice/www");
    assert_eq!(resolve_path("/alice"), "/home/alice/www");
    assert_eq!(resolve_path("/alice/blog/post.html"), "/home/alice/www/blog/post.html");
    assert_eq!(resolve_path("/"), "/home");
    assert_eq!(resolve_path(""), "/home");
    assert_eq!(resolve_path("/.."), "/home");
    assert_eq!(resolve_path("/../../etc/passwd"), "/home/etc/www/passwd");
}

#[test]
fn resolve_strips_parent_components() {
    // the `..` is dropped outright, so the first remaining component is
    // still the username
    assert_eq!(resolve_path("/bob/../alice/secret"), "/home/bob/www/alice/secret");
    assert_eq!(resolve_path("/../alice/x"), "/home/alice/www/x");
}

#[test]
fn every_resolution_stays_below_home() {
    for p in ["/a/../../..", "/..%2f..", "//x//y", "/../..", "/a/b/c/d/e", "/~root/../.."] {
        let r = resolve_path(p);
        assert!(r == "/home" || r.starts_with("/home/"));
    }
}

#[test]
fn display_path_strips_three_components() {
    assert_eq!(display_path("/home/alice/www/blog"), "blog");
    assert_eq!(display_path("/home/alice/www/blog/sub"), "blog/sub");
    assert_eq!(display_path("/home/alice/www"), "");
    assert_eq!(display_path("/home"), "");
}

#[test]
fn transclusion_enabled_only_for_html_extension() {
    assert!(is_transclude_enabled("/a/b/page.html"));
    assert!(is_transclude_enabled("/a/B.HTML"));
    assert!(is_transclude_enabled("x.HtMl"));
    assert!(!is_transclude_enabled("/a/b.txt"));
    assert!(!is_transclude_enabled("/a/html"));
    assert!(!is_transclude_enabled("/a/.html"));
    assert!(!is_transclude_enabled("/a/b"));
    assert!(!is_transclude_enabled("/a/b.html/c"));
}

#[test]
fn include_paths_resolve_against_frame_directory() {
    assert_eq!(resolve_include("sub.txt", "/home/a/www/page.html"), "/home/a/www/sub.txt");
    assert_eq!(resolve_include("/abs/x", "/home/a/www/page.html"), "/abs/x");
    assert_eq!(resolve_include("s", "/top.html"), "/s");
    assert_eq!(resolve_include("s", "bare.html"), "s");
    assert_eq!(parent_dir("/home/a/www/p.html"), "/home/a/www");
    assert_eq!(parent_dir("/p.html"), "/");
    assert_eq!(parent_dir("p.html"), "");
}

#[test]
fn path_component_helpers() {
    assert!(path_ends_with_component("/a/b/form_executable", "form_executable"));
    assert!(!path_ends_with_component("/a/b/xform_executable", "form_executable"));
    assert!(!path_ends_with_component("/a/form_executable/b", "form_executable"));
    let cs = components_of("/home//alice/www/");
    let views: Vec<&str> = cs.iter().map(|s| s.as_str()).collect();
    assert_eq!(views, vec!["home", "alice", "www"]);
}

#[test]
fn directory_redirects_add_slash() {
    assert!(needs_redirect(true, "/alice"));
    assert!(!needs_redirect(true, "/alice/"));
    assert!(!needs_redirect(false, "/alice"));
    assert!(needs_redirect(true, ""));
    assert_eq!(redirect_location("", "/alice"), "Location: /alice/");
    assert_eq!(
        redirect_location("https://example.org", "/alice"),
        "Location: https://example.org/alice/"
    );
}
