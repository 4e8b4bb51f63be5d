use jung_http::request::{
    build_request, content_length, decode_body, parse_request, ends_header_block, get_content_length, parse_headers,
    parse_path, parse_queries, to_header, HTTPMethod,
};

#[test]
fn builds_a_full_request() {
    let raw = "GET /a?x=1&y&z=2=3 HTTP/1.1\r\nHost: localhost\r\nAccept :  */* \r\nnot a header\r\n\r\n";
    let ctx = build_request(raw, "hi").unwrap();
    assert_eq!(ctx.method, HTTPMethod::GET);
    assert_eq!(ctx.path, "/a");
    assert_eq!(ctx.http_version, "HTTP/1.1");
    assert_eq!(ctx.queries.len(), 2);
    assert_eq!(ctx.queries[0].0, "x");
    assert_eq!(ctx.queries[0].1, "1");
    assert_eq!(ctx.queries[1].0, "z");
    assert_eq!(ctx.queries[1].1, "2=3");
    assert_eq!(ctx.headers.len(), 2);
    assert_eq!(ctx.headers[0].0, "Host");
    assert_eq!(ctx.headers[0].1, "localhost");
    assert_eq!(ctx.headers[1].0, "Accept");
    assert_eq!(ctx.headers[1].1, "*/*");
    assert_eq!(ctx.body.as_deref(), Some("hi"));
}

#[test]
fn short_start_line_is_a_parse_failure() {
    assert!(build_request("GET /only\r\nHost: x\r\n\r\n", "").is_none());
    assert!(build_request("", "").is_none());
}

#[test]
fn empty_body_is_absent() {
    let ctx = build_request("POST /echo HTTP/1.1\r\n\r\n", "").unwrap();
    assert_eq!(ctx.method, HTTPMethod::POST);
    assert!(ctx.body.is_none());
    assert!(ctx.queries.is_empty());
}

#[test]
fn body_is_kept_exactly() {
    let ctx = build_request("POST /echo HTTP/1.1\r\nContent-Length: 7\r\n", " a b\r\n ").unwrap();
    assert_eq!(ctx.body.as_deref(), Some(" a b\r\n "));
}

#[test]
fn method_names_in_any_case() {
    assert_eq!(HTTPMethod::from("post"), HTTPMethod::POST);
    assert_eq!(HTTPMethod::from("Patch"), HTTPMethod::PATCH);
    assert_eq!(HTTPMethod::from("DELETE"), HTTPMethod::DELETE);
    assert_eq!(HTTPMethod::from("put"), HTTPMethod::PUT);
    assert_eq!(HTTPMethod::from("options"), HTTPMethod::OPTIONS);
    assert_eq!(HTTPMethod::from("BREW"), HTTPMethod::GET);
    assert_eq!(HTTPMethod::from_upper("post"), HTTPMethod::GET);
    assert_eq!(HTTPMethod::OPTIONS.to_string(), "OPTIONS");
    assert_eq!(HTTPMethod::GET.to_string(), "GET");
}

#[test]
fn content_length_of_a_line() {
    assert_eq!(get_content_length("Content-Length: 12"), 12);
    assert_eq!(get_content_length("Content-Length:+7 \r"), 7);
    assert_eq!(get_content_length("Content-Length: abc"), 0);
    assert_eq!(get_content_length("Content-Length: -1"), 0);
    assert_eq!(get_content_length("Content-Length 12"), 0);
    assert_eq!(get_content_length("Content-Length: 99999999999999999999999"), 0);
}

#[test]
fn content_length_ignores_header_order() {
    let a = "POST / HTTP/1.1\r\nHost: x\r\nContent-Length: 5\r\nACCEPT: y\r\n\r\n";
    let b = "POST / HTTP/1.1\r\nContent-Length: 5\r\naccept: y\r\nHOST: x\r\n\r\n";
    assert_eq!(content_length(a), 5);
    assert_eq!(content_length(b), 5);
    assert_eq!(content_length("GET / HTTP/1.1\r\nHost: x\r\n\r\n"), 0);
}

#[test]
fn body_is_the_announced_bytes() {
    let wire = "POST /echo HTTP/1.1\r\nX-A: 1\r\nContent-Length: 5\r\n\r\nhello and more";
    let end = wire.find("\r\n\r\n").unwrap() + 4;
    let headers = &wire[..end];
    let n = content_length(headers);
    let body = &wire[end..end + n];
    let ctx = build_request(headers, body).unwrap();
    assert_eq!(ctx.body.as_deref(), Some("hello"));
}

#[test]
fn short_line_ends_headers() {
    assert!(ends_header_block(2));
    assert!(ends_header_block(0));
    assert!(!ends_header_block(3));
}

#[test]
fn header_pairs_are_trimmed() {
    let h = to_header(Some(("  Key ", " value  "))).unwrap();
    assert_eq!(h.0, "Key");
    assert_eq!(h.1, "value");
    assert!(to_header(None).is_none());
    let lines = vec!["A: 1".to_string(), "junk".to_string(), "B:2:3".to_string()];
    let hs = parse_headers(&lines);
    assert_eq!(hs.len(), 2);
    assert_eq!(hs[1].0, "B");
    assert_eq!(hs[1].1, "2:3");
}

#[test]
fn target_splits_at_first_question_mark() {
    let (path, pieces) = parse_path("/a?x=1?y=2&k");
    assert_eq!(path, "/a");
    assert_eq!(pieces, vec!["x=1?y=2".to_string(), "k".to_string()]);
    let qs = parse_queries(&pieces);
    assert_eq!(qs.len(), 1);
    assert_eq!(qs[0].1, "1?y=2");
    let (path, pieces) = parse_path("/plain");
    assert_eq!(path, "/plain");
    assert!(pieces.is_empty());
}

#[test]
fn build_request_reads_the_text_as_given() {
    let ctx = build_request("  a b", "").unwrap();
    assert_eq!(ctx.path, "");
    assert_eq!(ctx.http_version, "a");
    assert!(build_request(" GET", "").is_none());
    assert!(build_request("  GET", "").is_some());
}

#[test]
fn parse_request_trims_the_header_block() {
    let ctx = parse_request("  GET /x HTTP/1.1\r\nHost: h\r\n\r\n", "").unwrap();
    assert_eq!(ctx.method, HTTPMethod::GET);
    assert_eq!(ctx.path, "/x");
    assert_eq!(ctx.http_version, "HTTP/1.1");
    assert_eq!(ctx.headers.len(), 1);
    assert!(parse_request(" \r\n", "").is_none());
}

#[test]
fn body_bytes_decode_lossily() {
    assert_eq!(decode_body("héllo".as_bytes()), "héllo");
    assert_eq!(decode_body(&[b'a', 0xff, b'b']), "a\u{FFFD}b");
    assert_eq!(decode_body(&[]), "");
}
