use jung_http::response::HttpResponse;

#[test]
fn response_serializes_exactly() {
    let mut r = HttpResponse::new();
    r.set_header("X-Test", "1");
    r.set_body("hi");
    assert_eq!(r.to_wire(), "HTTP/1.1 200 OK\r\nX-Test: 1\r\n\r\nContent-Length: 2\r\n\r\nhi");
}

#[test]
fn status_line_uses_canonical_reason() {
    let mut r = HttpResponse::new();
    r.set_status(http::StatusCode::NOT_FOUND.as_u16());
    assert_eq!(r.status(), 404);
    assert_eq!(r.status_line(), "HTTP/1.1 404 Not Found\r\n");
    r.set_status(http::StatusCode::IM_A_TEAPOT.as_u16());
    assert_eq!(r.status_line(), "HTTP/1.1 418 I'm a teapot\r\n");
    r.set_status(599);
    assert_eq!(r.status_line(), "HTTP/1.1 599 Unknown status code\r\n");
    assert_eq!(r.status_line_with("Fine"), "HTTP/1.1 599 Fine\r\n");
}

#[test]
fn content_length_counts_utf8_bytes() {
    let mut r = HttpResponse::new();
    r.set_body("héllo");
    assert_eq!(r.body_text(), "Content-Length: 6\r\n\r\nhéllo");
    let empty = HttpResponse::new();
    assert_eq!(empty.body_text(), "Content-Length: 0\r\n\r\n");
}

#[test]
fn headers_keep_order_and_duplicates() {
    let mut r = HttpResponse::new();
    r.set_header("A", "1");
    r.set_header("A", "2");
    r.set_header("B", "3");
    assert_eq!(r.header_count(), 3);
    let (k, v) = r.header(1);
    assert_eq!((k.as_str(), v.as_str()), ("A", "2"));
    assert_eq!(r.headers_text(), "A: 1\r\n\r\nA: 2\r\n\r\nB: 3\r\n\r\n");
    assert_eq!(
        r.to_wire_with("Fine"),
        "HTTP/1.1 200 Fine\r\nA: 1\r\n\r\nA: 2\r\n\r\nB: 3\r\n\r\nContent-Length: 0\r\n\r\n"
    );
}
