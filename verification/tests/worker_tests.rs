use candy::compress::CompressionType;
use candy::web::parser::{HttpVersion, Method, ParseError, Parser, Request};
use candy::router::ResolveResult;
use candy::worker::{
    extract_attr_value, extract_push_resources, find_header, handle_range_request,
    handle_request, is_keep_alive, negotiate_encoding, parse_range_header,
    content_answer_would_fail, method_not_allowed, request_underflows, respond_with_content,
    sendfile_head, https_redirect, log_record,
};

fn request(method: Method, version: HttpVersion, headers: &[(&str, &str)]) -> Request {
    Request {
        method,
        path: b"/".to_vec(),
        version,
        headers: headers.iter().map(|(n, v)| (n.as_bytes().to_vec(), v.as_bytes().to_vec())).collect(),
        body: None,
    }
}

#[test]
fn test_parse_range_header_start_end() {
    assert_eq!(parse_range_header(b"bytes=0-99", 1000), Some((0, 99)));
}

#[test]
fn test_parse_range_header_start_only() {
    assert_eq!(parse_range_header(b"bytes=500-", 1000), Some((500, 999)));
}

#[test]
fn test_parse_range_header_suffix() {
    assert_eq!(parse_range_header(b"bytes=-100", 1000), Some((900, 999)));
}

#[test]
fn test_parse_range_header_invalid_start() {
    assert_eq!(parse_range_header(b"bytes=1000-2000", 1000), None);
}

#[test]
fn test_parse_range_header_invalid_format() {
    assert_eq!(parse_range_header(b"invalid", 1000), None);
}

#[test]
fn test_parse_range_header_no_bytes_prefix() {
    assert_eq!(parse_range_header(b"chunks=0-99", 1000), None);
}

#[test]
fn range_header_more_cases() {
    assert_eq!(parse_range_header(b"bytes=0-5000", 1000), Some((0, 999)));
    assert_eq!(parse_range_header(b"bytes= 10 - 20 ", 1000), Some((10, 20)));
    assert_eq!(parse_range_header(b"bytes=20-10", 1000), None);
    assert_eq!(parse_range_header(b"bytes=-2000", 1000), None);
    assert_eq!(parse_range_header(b"bytes=0-1-2", 1000), None);
    assert_eq!(parse_range_header(b"bytes=+5-", 10), Some((5, 9)));
    assert_eq!(parse_range_header(b"bytes=\xff-1", 10), None);
    assert_eq!(parse_range_header(b"bytes=a-1", 0), None);
}

#[test]
fn test_find_header() {
    let headers = vec![
        (b"Host".to_vec(), b"localhost".to_vec()),
        (b"Range".to_vec(), b"bytes=0-99".to_vec()),
    ];
    assert_eq!(find_header(&headers, b"Range"), Some(b"bytes=0-99".to_vec()));
    assert_eq!(find_header(&headers, b"range"), Some(b"bytes=0-99".to_vec()));
}

#[test]
fn test_find_header_not_found() {
    let headers = vec![(b"Host".to_vec(), b"localhost".to_vec())];
    assert_eq!(find_header(&headers, b"Range"), None);
}

#[test]
fn test_is_keep_alive() {
    assert!(is_keep_alive(&request(Method::GET, HttpVersion::Http11, &[])));
}

#[test]
fn test_is_keep_alive_http10_default() {
    assert!(!is_keep_alive(&request(Method::GET, HttpVersion::Http10, &[])));
}

#[test]
fn test_is_keep_alive_with_header() {
    assert!(is_keep_alive(&request(Method::GET, HttpVersion::Http10, &[("Connection", "keep-alive")])));
}

#[test]
fn test_is_keep_alive_close_header() {
    assert!(!is_keep_alive(&request(Method::GET, HttpVersion::Http11, &[("Connection", "close")])));
}

#[test]
fn keep_alive_first_decisive_header_wins() {
    let r = request(
        Method::GET,
        HttpVersion::Http11,
        &[("connection", "upgrade"), ("CONNECTION", "Close"), ("Connection", "keep-alive")],
    );
    assert!(!is_keep_alive(&r));
}

#[test]
fn range_responses() {
    let content = b"0123456789";
    let r = handle_range_request(b"bytes=2-4", content, "text/plain", 10, Method::GET);
    assert_eq!(r.status, 206);
    assert_eq!(r.body, Some(b"234".to_vec()));
    assert!(r.headers.contains(&("Content-Range".to_string(), "bytes 2-4/10".to_string())));
    let r = handle_range_request(b"bytes=2-4", content, "text/plain", 10, Method::HEAD);
    assert_eq!(r.body, None);
    assert!(r.headers.contains(&("Content-Length".to_string(), "3".to_string())));
    let r = handle_range_request(b"bytes=20-", content, "text/plain", 10, Method::GET);
    assert_eq!(r.status, 416);
    assert_eq!(r.headers, vec![("Content-Range".to_string(), "bytes */10".to_string())]);
}

#[test]
fn push_resources_from_html() {
    let html = b"<link rel=\"stylesheet\" href=\"/a.css\">\r\n<script src='/b.js'></script>\n<script src=\"/../c.js\"></script>\n<link rel='stylesheet' href=\"x.css\">\n<script src=\"/d.mjs\"></script>";
    assert_eq!(extract_push_resources(html), vec!["/a.css".to_string(), "/b.js".to_string()]);
}

#[test]
fn attr_values() {
    assert_eq!(extract_attr_value("<a href=\"/x\">", "href"), Some("/x".to_string()));
    assert_eq!(extract_attr_value("<a href='/y'>", "href"), Some("/y".to_string()));
    assert_eq!(extract_attr_value("<a href=\"/x>", "href"), None);
    assert_eq!(extract_attr_value("<a>", "href"), None);
}

#[test]
fn requests_for_files() {
    let get = request(Method::GET, HttpVersion::Http11, &[]);
    let file = ResolveResult::File("/srv/a.txt".to_string());
    let r = handle_request(&get, &file, Some(b"hi".to_vec()));
    assert_eq!(r.status, 200);
    assert_eq!(r.body, Some(b"hi".to_vec()));
    assert_eq!(r.content_type(), "text/plain; charset=utf-8");
    let post = request(Method::POST, HttpVersion::Http11, &[]);
    assert_eq!(handle_request(&post, &file, Some(b"hi".to_vec())).status, 405);
    assert_eq!(handle_request(&get, &file, None).status, 500);
    assert_eq!(handle_request(&get, &ResolveResult::NotFound, None).status, 404);
    assert_eq!(handle_request(&get, &ResolveResult::Forbidden, None).status, 403);
    assert_eq!(handle_request(&get, &ResolveResult::Directory("/srv".to_string()), None).status, 403);
    let head = request(Method::HEAD, HttpVersion::Http11, &[]);
    let r = handle_request(&head, &file, Some(b"hello".to_vec()));
    assert_eq!(r.body, None);
    assert!(r.headers.contains(&("Content-Length".to_string(), "5".to_string())));
    let ranged = request(Method::GET, HttpVersion::Http11, &[("Range", "bytes=1-")]);
    let r = handle_request(&ranged, &file, Some(b"hello".to_vec()));
    assert_eq!(r.status, 206);
    assert_eq!(r.body, Some(b"ello".to_vec()));
}

#[test]
fn compressed_file_response() {
    let get = request(Method::GET, HttpVersion::Http11, &[("Accept-Encoding", "gzip")]);
    let file = ResolveResult::File("/srv/index.html".to_string());
    let body = b"<html><body>hello hello hello hello hello</body></html>".to_vec();
    let r = handle_request(&get, &file, Some(body.clone()));
    assert!(r.headers.contains(&("Content-Encoding".to_string(), "gzip".to_string())));
    let z = r.body.unwrap();
    assert_eq!(&z[0..2], &[0x1f, 0x8b]);
    assert_ne!(z, body);
    assert_eq!(negotiate_encoding(&get.headers, "image/png"), CompressionType::Identity);
    assert_eq!(negotiate_encoding(&get.headers, "text/css"), CompressionType::Gzip);
}

#[test]
fn pipelined_requests_parse_one_at_a_time() {
    let buf = b"GET /a HTTP/1.1\r\nHost: x\r\n\r\nGET /b HTTP/1.1\r\n\r\n";
    let mut p = Parser::new();
    let (n, first) = p.parse(buf, 8192, 1 << 20).unwrap();
    assert_eq!(first.path, b"/a".to_vec());
    let (m, second) = p.parse(&buf[n..], 8192, 1 << 20).unwrap();
    assert_eq!(second.path, b"/b".to_vec());
    assert_eq!(n + m, buf.len());
    assert!(matches!(p.parse(&buf[..10], 8192, 1 << 20), Err(ParseError::Incomplete)));
}

#[test]
fn method_not_allowed_names_connection() {
    let bytes = method_not_allowed(false).to_bytes();
    let text = String::from_utf8(bytes).unwrap();
    assert_eq!(
        text,
        "HTTP/1.1 405 Method Not Allowed\r\nContent-Type: text/plain\r\nConnection: close\r\nContent-Length: 18\r\n\r\nMethod Not Allowed"
    );
}

#[test]
fn sendfile_only_for_plain_gets_of_uncompressed_types() {
    let get = request(Method::GET, HttpVersion::Http11, &[]);
    let head = sendfile_head(&get, "/srv/a.png", 1234, true).unwrap();
    assert_eq!(
        String::from_utf8(head).unwrap(),
        "HTTP/1.1 200 OK\r\nContent-Type: image/png\r\nContent-Length: 1234\r\nAccept-Ranges: bytes\r\nConnection: keep-alive\r\n\r\n"
    );
    assert!(sendfile_head(&get, "/srv/a.html", 10, true).is_none());
    let ranged = request(Method::GET, HttpVersion::Http11, &[("Range", "bytes=0-1")]);
    assert!(sendfile_head(&ranged, "/srv/a.png", 10, true).is_none());
    let coded = request(Method::GET, HttpVersion::Http11, &[("Accept-Encoding", "gzip")]);
    assert!(sendfile_head(&coded, "/srv/a.png", 10, true).is_none());
    let head_req = request(Method::HEAD, HttpVersion::Http11, &[]);
    assert!(sendfile_head(&head_req, "/srv/a.png", 10, true).is_none());
}

#[test]
fn content_answer_range_then_keep_alive_line() {
    let req = request(Method::GET, HttpVersion::Http11, &[("Range", "bytes=1-2")]);
    let out = respond_with_content(&req, "/srv/a.txt", b"abcd".to_vec(), 4, true);
    let text = String::from_utf8(out).unwrap();
    assert!(text.starts_with("HTTP/1.1 206 Partial Content\r\n"));
    assert!(text.ends_with("\r\n\r\nbcConnection: keep-alive\r\n"));
}

#[test]
fn content_answer_whole_file_with_connection() {
    let req = request(Method::HEAD, HttpVersion::Http11, &[]);
    let out = respond_with_content(&req, "/srv/a.txt", b"abcd".to_vec(), 4, false);
    assert_eq!(
        String::from_utf8(out).unwrap(),
        "HTTP/1.1 200 OK\r\nContent-Type: text/plain; charset=utf-8\r\nAccept-Ranges: bytes\r\nVary: Accept-Encoding\r\nConnection: close\r\nContent-Length: 4\r\n\r\n"
    );
}

#[test]
fn inputs_that_would_underflow_are_recognised() {
    let suffix0 = request(Method::GET, HttpVersion::Http11, &[("Range", "bytes=-0")]);
    let file = ResolveResult::File("/srv/a.txt".to_string());
    assert!(request_underflows(&suffix0, &file, &Some(b"abc".to_vec())));
    let empty = request(Method::GET, HttpVersion::Http11, &[("Range", "bytes=0-")]);
    assert!(request_underflows(&empty, &file, &Some(Vec::new())));
    let fine = request(Method::GET, HttpVersion::Http11, &[("Range", "bytes=0-1")]);
    assert!(!request_underflows(&fine, &file, &Some(b"abc".to_vec())));
    assert!(!request_underflows(&suffix0, &ResolveResult::NotFound, &None));
    assert!(content_answer_would_fail(&suffix0, b"abc", 3));
    assert!(content_answer_would_fail(&fine, b"a", 3));
    assert!(!content_answer_would_fail(&fine, b"abc", 3));
}

#[test]
fn log_record_from_request_or_protocol() {
    let mut req = request(Method::POST, HttpVersion::Http10, &[("referer", "http://r/"), ("User-Agent", "ua")]);
    req.path = b"/p?q=1".to_vec();
    let log = log_record("1.2.3.4:5".to_string(), "HTTPS", 7, false, Some(&req));
    assert_eq!(log.method, "POST");
    assert_eq!(log.path, "/p?q=1");
    assert_eq!(log.version, "HTTP/1.0");
    assert_eq!(log.status, 500);
    assert_eq!(log.response_time_ms, 7);
    assert_eq!(log.referer, Some("http://r/".to_string()));
    assert_eq!(log.user_agent, Some("ua".to_string()));
    let log = log_record("1.2.3.4:5".to_string(), "HTTPS", 3, true, None);
    assert_eq!((log.method.as_str(), log.path.as_str(), log.version.as_str(), log.status), ("HTTPS", "/", "HTTP/1.1", 200));
    assert!(log.referer.is_none());
}

#[test]
fn https_redirect_builds_location() {
    let mut req = request(Method::GET, HttpVersion::Http11, &[("Host", "example.com")]);
    req.path = b"/a?b".to_vec();
    let text = String::from_utf8(https_redirect(&req, "0.0.0.0:8443", 8443).to_bytes()).unwrap();
    assert!(text.starts_with("HTTP/1.1 301 Moved Permanently\r\nLocation: https://example.com:8443/a?b\r\nConnection: close\r\n"));
    let bare = request(Method::GET, HttpVersion::Http11, &[]);
    let text = String::from_utf8(https_redirect(&bare, "10.0.0.1:443", 443).to_bytes()).unwrap();
    assert!(text.contains("Location: https://10.0.0.1:443/\r\n"));
}
