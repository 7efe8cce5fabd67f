use homepage_server::httpmsg::{
    build_response_head, classify_body, parse_header_line, parse_request_line,
    parse_url_encoded_key_value_pairs, split_target, BodyKind, Method,
};

#[test]
fn request_line_get() {
    let r = parse_request_line("GET /alice/ HTTP/1.0").unwrap();
    assert!(matches!(r.0, Method::Get));
    assert_eq!(r.1, "/alice/");
}

#[test]
fn request_line_post() {
    let r = parse_request_line("POST /alice/form HTTP/1.0").unwrap();
    assert!(matches!(r.0, Method::Post));
    assert_eq!(r.1, "/alice/form");
}

#[test]
fn request_line_other_method_rejected() {
    assert!(parse_request_line("PUT /x HTTP/1.0").is_none());
    assert!(parse_request_line("GET").is_none());
    assert!(parse_request_line("").is_none());
}

#[test]
fn target_splits_on_first_question_mark() {
    let (p, q) = split_target("/a/b?x=1&y=2?z");
    assert_eq!(p, "/a/b");
    assert_eq!(q.as_deref(), Some("x=1&y=2?z"));
    let (p2, q2) = split_target("/plain");
    assert_eq!(p2, "/plain");
    assert!(q2.is_none());
}

#[test]
fn query_pairs_decode_and_last_write_wins() {
    let m = parse_url_encoded_key_value_pairs("a=1&b=two%20words&a=3");
    assert_eq!(m.get("a").unwrap().as_str(), "3");
    assert_eq!(m.get("b").unwrap().as_str(), "two words");
}

#[test]
fn query_pair_without_equals_is_bare_key() {
    let m = parse_url_encoded_key_value_pairs("flag&x=1");
    assert_eq!(m.get("flag").unwrap().as_str(), "");
    assert_eq!(m.get("x").unwrap().as_str(), "1");
}

#[test]
fn query_pair_with_invalid_utf8_is_dropped() {
    // %ff alone is not valid UTF-8, so the pair vanishes; the sound pair stays
    let m = parse_url_encoded_key_value_pairs("bad=%ff&good=ok");
    assert!(m.get("bad").is_none());
    assert_eq!(m.get("good").unwrap().as_str(), "ok");
}

#[test]
fn header_line_lowercases_and_trims() {
    let (k, v) = parse_header_line("Content-Type: text/plain\r").unwrap();
    assert_eq!(k, "content-type");
    assert_eq!(v, "text/plain");
    let (k2, v2) = parse_header_line("X-FOO:  Bar Baz  ").unwrap();
    assert_eq!(k2, "x-foo");
    assert_eq!(v2, "Bar Baz");
}

#[test]
fn header_line_without_colon_space_is_none() {
    assert!(parse_header_line("nonsense").is_none());
    assert!(parse_header_line("almost:nospace").is_none());
    assert!(parse_header_line("").is_none());
}

#[test]
fn body_kind_from_content_type() {
    let t = String::from("text/plain");
    let u = String::from("application/x-www-form-urlencoded");
    let m = String::from("multipart/form-data");
    let o = String::from("application/json");
    assert!(matches!(classify_body(Some(&t)), BodyKind::Text));
    assert!(matches!(classify_body(Some(&u)), BodyKind::UrlEncoded));
    assert!(matches!(classify_body(Some(&m)), BodyKind::Multipart));
    assert!(matches!(classify_body(Some(&o)), BodyKind::NoBody));
    assert!(matches!(classify_body(None), BodyKind::NoBody));
}

#[test]
fn response_head_exact_bytes() {
    let hs = vec![
        String::from("Last-Modified: Sun, 06 Nov 1994 08:49:37 GMT"),
        String::from("Cache-Control: max-age=30"),
    ];
    let head = build_response_head("200 OK", 5, &hs);
    assert_eq!(
        head,
        "HTTP/1.0 200 OK\r\nContent-Length: 5\r\nLast-Modified: Sun, 06 Nov 1994 08:49:37 GMT\r\nCache-Control: max-age=30\r\n\r\n"
    );
}

#[test]
fn response_head_starts_and_separates() {
    let head = build_response_head("404 Not Found", 123, &vec![]);
    assert!(head.starts_with("HTTP/1.0 "));
    assert!(head.ends_with("\r\n\r\n"));
    assert_eq!(head.matches("\r\n\r\n").count(), 1);
}

#[test]
fn response_head_maximum_content_length() {
    let head = build_response_head("200 OK", u64::MAX, &vec![]);
    assert_eq!(
        head,
        "HTTP/1.0 200 OK\r\nContent-Length: 18446744073709551615\r\n\r\n"
    );
}
