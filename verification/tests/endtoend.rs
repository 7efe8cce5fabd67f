//! Composed walks through the verified pipeline, following the wire format
//! of whole requests and responses without sockets.

use homepage_server::dispatch::{plan_get, serve_file_plan, FileServePlan, GetPlan, PathProbe};
use homepage_server::httpmsg::{
    build_response_head, parse_header_line, parse_request_line, parse_url_encoded_key_value_pairs,
    split_target, Method,
};
use homepage_server::kvmap::KvMap;
use homepage_server::paths::resolve_path;
use homepage_server::transclude::{Step, TranscludeMachine};

fn expand_with(root: &str, files: &[(&str, &[u8])]) -> Vec<u8> {
    let mut m = TranscludeMachine::new(
        root.to_string(),
        files.iter().find(|(p, _)| *p == root).unwrap().1.to_vec(),
    );
    let mut out = Vec::new();
    loop {
        match m.step() {
            Step::Out(b) => out.extend_from_slice(&b),
            Step::Include(b, p) => {
                out.extend_from_slice(&b);
                match files.iter().find(|(q, _)| *q == p) {
                    Some((_, c)) => m.include_found(c.to_vec()),
                    None => m.include_missing(),
                }
            }
            Step::Done => break,
        }
    }
    out
}

#[test]
fn get_of_user_home_serves_static_index() {
    // GET /alice/ with /home/alice/www/index.html containing `hello`
    let (method, target) = parse_request_line("GET /alice/ HTTP/1.0").unwrap();
    assert!(matches!(method, Method::Get));
    let (path, query) = split_target(&target);
    assert!(query.is_none());
    let resolved = resolve_path(&path);
    assert_eq!(resolved, "/home/alice/www");

    let probe = PathProbe {
        exists: true,
        is_dir: true,
        index_exec_is_file: false,
        index_html_is_file: true,
    };
    let target_file = match plan_get(&resolved, probe, &KvMap::new()) {
        GetPlan::ServeFile { file_path } => file_path,
        _ => panic!("expected the static index"),
    };
    assert_eq!(target_file, "/home/alice/www/index.html");

    let body = expand_with(&target_file, &[(target_file.as_str(), b"hello")]);
    assert_eq!(body, b"hello");

    let headers = match serve_file_plan(&KvMap::new(), 784111777) {
        FileServePlan::Serve { response_headers } => response_headers,
        _ => panic!("expected a serve"),
    };
    let head = build_response_head("200 OK", u64::MAX, &headers);
    assert!(head.starts_with("HTTP/1.0 200 OK\r\n"));
    assert!(head.contains("\r\nLast-Modified: Sun, 06 Nov 1994 08:49:37 GMT\r\n"));
    assert!(head.contains("\r\nCache-Control: max-age=30\r\n"));
    assert!(head.ends_with("\r\n\r\n"));

    let mut wire = head.into_bytes();
    wire.extend_from_slice(&body);
    assert!(wire.ends_with(b"\r\n\r\nhello"));
}

#[test]
fn get_with_transclusion_streams_expanded_document() {
    // GET /alice/page.html with content `A{sub.txt}B` and sibling `sub.txt`
    let (_, target) = parse_request_line("GET /alice/page.html HTTP/1.0").unwrap();
    let (path, _) = split_target(&target);
    let resolved = resolve_path(&path);
    assert_eq!(resolved, "/home/alice/www/page.html");
    let probe = PathProbe {
        exists: true,
        is_dir: false,
        index_exec_is_file: false,
        index_html_is_file: false,
    };
    let target_file = match plan_get(&resolved, probe, &KvMap::new()) {
        GetPlan::ServeFile { file_path } => file_path,
        _ => panic!("expected a file"),
    };
    let body = expand_with(
        &target_file,
        &[
            ("/home/alice/www/page.html", b"A{sub.txt}B"),
            ("/home/alice/www/sub.txt", b"MID"),
        ],
    );
    assert_eq!(body, b"AMIDB");
}

#[test]
fn query_and_headers_flow_through_the_parsers() {
    let (_, target) = parse_request_line("GET /alice/blog?p=2&n=10 HTTP/1.0").unwrap();
    let (path, query_string) = split_target(&target);
    assert_eq!(path, "/alice/blog");
    let query = parse_url_encoded_key_value_pairs(&query_string.unwrap());
    assert_eq!(query.get("p").unwrap().as_str(), "2");
    assert_eq!(query.get("n").unwrap().as_str(), "10");
    let mut headers = KvMap::new();
    for line in ["Host: example.org\r", "If-Modified-Since: whenever\r"] {
        let (k, v) = parse_header_line(line.trim_end_matches(['\r', '\n'])).unwrap();
        headers.insert(k, v);
    }
    assert_eq!(headers.get("host").unwrap().as_str(), "example.org");
    assert_eq!(headers.get("if-modified-since").unwrap().as_str(), "whenever");
}
