use candy::web::response::{status_text, Response};

#[test]
fn test_response_to_bytes() {
    let response = Response::ok()
        .header("Content-Type", "text/html")
        .body(b"<h1>Hello</h1>".to_vec());
    let bytes = response.to_bytes();
    let s = String::from_utf8(bytes.to_vec()).unwrap();
    assert!(s.starts_with("HTTP/1.1 200 OK\r\n"));
    assert!(s.contains("Content-Type: text/html\r\n"));
    assert!(s.contains("Content-Length: 14\r\n"));
    assert!(s.ends_with("<h1>Hello</h1>"));
}

#[test]
fn test_not_found_response() {
    let response = Response::not_found();
    assert_eq!(response.status, 404);
    assert!(response.body.is_some());
}

#[test]
fn response_bytes_exactly() {
    let r = Response::new(204).header("X-A", "1").header("X-B", "2");
    assert_eq!(
        String::from_utf8(r.to_bytes()).unwrap(),
        "HTTP/1.1 204 No Content\r\nX-A: 1\r\nX-B: 2\r\n\r\n"
    );
    let r = Response::forbidden();
    assert_eq!(
        String::from_utf8(r.to_bytes()).unwrap(),
        "HTTP/1.1 403 Forbidden\r\nContent-Length: 9\r\n\r\nForbidden"
    );
}

#[test]
fn status_texts() {
    assert_eq!(status_text(200), "OK");
    assert_eq!(status_text(416), "Range Not Satisfiable");
    assert_eq!(status_text(503), "Service Unavailable");
    assert_eq!(status_text(418), "Unknown");
}

#[test]
fn content_type_lookup() {
    assert_eq!(Response::ok().content_type(), "application/octet-stream");
    let r = Response::ok().header("content-TYPE", "text/css").header("Content-Type", "x/y");
    assert_eq!(r.content_type(), "text/css");
}

#[test]
fn body_accessors() {
    let r = Response::internal_error();
    assert_eq!(r.status_code(), 500);
    assert_eq!(r.body_len(), 21);
    assert_eq!(r.into_body(), b"Internal Server Error".to_vec());
    let r = Response::partial_content();
    assert_eq!(r.body_len(), 0);
    assert!(r.into_body().is_empty());
    let r = Response::range_not_satisfiable("bytes */10");
    assert_eq!(r.status, 416);
    assert_eq!(r.headers, vec![("Content-Range".to_string(), "bytes */10".to_string())]);
}
