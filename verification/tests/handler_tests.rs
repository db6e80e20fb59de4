use candy::web::lua::handler::{
    build_raw_header, build_request_line, http_version_number, http_version_to_string,
    parse_uri_args, ProtocolVersion,
};
use candy::web::lua::utils::UriArgs;
use http::{header, HeaderMap, HeaderValue, Uri};

fn version_of(v: http::Version) -> ProtocolVersion {
    match v {
        http::Version::HTTP_09 => ProtocolVersion::Http09,
        http::Version::HTTP_10 => ProtocolVersion::Http10,
        http::Version::HTTP_11 => ProtocolVersion::Http11,
        http::Version::HTTP_2 => ProtocolVersion::Http2,
        _ => ProtocolVersion::Http3,
    }
}

fn version_string(v: http::Version) -> &'static str {
    http_version_to_string(version_of(v))
}

fn version_float(v: http::Version) -> Option<f32> {
    let (major, minor) = http_version_number(version_of(v));
    format!("{}.{}", major, minor).parse::<f32>().ok()
}

fn raw_header(headers: &HeaderMap) -> String {
    build_raw_header(headers)
}

fn request_line(method: &str, pq: Option<&http::uri::PathAndQuery>, version: &str) -> String {
    build_request_line(method, pq.map(|p| p.as_str()), version)
}

fn uri_args(uri: &Uri) -> (String, UriArgs) {
    parse_uri_args(uri.path_and_query().map(|p| p.as_str()))
}

#[test]
fn handler_test_http_09() {
    assert_eq!(version_string(http::Version::HTTP_09), "HTTP/0.9");
}

#[test]
fn handler_test_http_10() {
    assert_eq!(version_string(http::Version::HTTP_10), "HTTP/1.0");
}

#[test]
fn handler_test_http_11() {
    assert_eq!(version_string(http::Version::HTTP_11), "HTTP/1.1");
}

#[test]
fn handler_test_http_2() {
    assert_eq!(version_string(http::Version::HTTP_2), "HTTP/2.0");
}

#[test]
fn handler_test_http_3() {
    assert_eq!(version_string(http::Version::HTTP_3), "HTTP/3.0");
}

#[test]
fn test_all_known_versions() {
    assert_eq!(version_string(http::Version::HTTP_09), "HTTP/0.9");
    assert_eq!(version_string(http::Version::HTTP_10), "HTTP/1.0");
    assert_eq!(version_string(http::Version::HTTP_11), "HTTP/1.1");
    assert_eq!(version_string(http::Version::HTTP_2), "HTTP/2.0");
    assert_eq!(version_string(http::Version::HTTP_3), "HTTP/3.0");
}

#[test]
fn handler_version_number_test_http_09() {
    assert_eq!(version_float(http::Version::HTTP_09), Some(0.9));
}

#[test]
fn handler_version_number_test_http_10() {
    assert_eq!(version_float(http::Version::HTTP_10), Some(1.0));
}

#[test]
fn handler_version_number_test_http_11() {
    assert_eq!(version_float(http::Version::HTTP_11), Some(1.1));
}

#[test]
fn handler_version_number_test_http_2() {
    assert_eq!(version_float(http::Version::HTTP_2), Some(2.0));
}

#[test]
fn handler_version_number_test_http_3() {
    assert_eq!(version_float(http::Version::HTTP_3), Some(3.0));
}

#[test]
fn test_all_known_versions_float() {
    assert_eq!(version_float(http::Version::HTTP_09), Some(0.9));
    assert_eq!(version_float(http::Version::HTTP_10), Some(1.0));
    assert_eq!(version_float(http::Version::HTTP_11), Some(1.1));
    assert_eq!(version_float(http::Version::HTTP_2), Some(2.0));
    assert_eq!(version_float(http::Version::HTTP_3), Some(3.0));
}

#[test]
fn test_empty_headers() {
    let headers = HeaderMap::new();
    assert_eq!(raw_header(&headers), "");
}

#[test]
fn test_single_header() {
    let mut headers = HeaderMap::new();
    headers.insert(header::HOST, HeaderValue::from_static("localhost"));
    assert!(raw_header(&headers).contains("host: localhost"));
}

#[test]
fn test_multiple_headers() {
    let mut headers = HeaderMap::new();
    headers.insert(header::HOST, HeaderValue::from_static("localhost"));
    headers.insert(header::CONTENT_TYPE, HeaderValue::from_static("application/json"));
    let result = raw_header(&headers);
    assert!(result.contains("host: localhost"));
    assert!(result.contains("content-type: application/json"));
}

#[test]
fn test_header_format() {
    let mut headers = HeaderMap::new();
    headers.insert(header::ACCEPT, HeaderValue::from_static("text/html"));
    let result = raw_header(&headers);
    assert!(result.ends_with("\r\n"));
    assert!(result.contains(": "));
}

#[test]
fn test_header_value_with_special_chars() {
    let mut headers = HeaderMap::new();
    headers.insert(header::ACCEPT, HeaderValue::from_static("text/html; charset=utf-8"));
    assert!(raw_header(&headers).contains("text/html; charset=utf-8"));
}

#[test]
fn test_simple_get() {
    let uri = Uri::from_static("/");
    assert_eq!(request_line("GET", uri.path_and_query(), "HTTP/1.1"), "GET / HTTP/1.1");
}

#[test]
fn test_with_path() {
    let uri = Uri::from_static("/api/users");
    assert_eq!(request_line("POST", uri.path_and_query(), "HTTP/1.1"), "POST /api/users HTTP/1.1");
}

#[test]
fn test_with_query_string() {
    let uri = Uri::from_static("/search?q=test");
    assert_eq!(
        request_line("GET", uri.path_and_query(), "HTTP/1.1"),
        "GET /search?q=test HTTP/1.1"
    );
}

#[test]
fn test_with_path_and_query() {
    let uri = Uri::from_static("/api/item/123?fields=name,email");
    assert_eq!(
        request_line("PUT", uri.path_and_query(), "HTTP/1.1"),
        "PUT /api/item/123?fields=name,email HTTP/1.1"
    );
}

#[test]
fn test_none_uri() {
    assert_eq!(request_line("GET", None, "HTTP/1.1"), "GET / HTTP/1.1");
}

#[test]
fn handler_request_line_test_http_10() {
    let uri = Uri::from_static("/");
    assert_eq!(request_line("GET", uri.path_and_query(), "HTTP/1.0"), "GET / HTTP/1.0");
}

#[test]
fn test_delete_method() {
    let uri = Uri::from_static("/resource/1");
    assert_eq!(
        request_line("DELETE", uri.path_and_query(), "HTTP/1.1"),
        "DELETE /resource/1 HTTP/1.1"
    );
}

#[test]
fn test_root_path() {
    let (path, args) = uri_args(&Uri::from_static("/"));
    assert_eq!(path, "/");
    assert!(args.0.is_empty());
}

#[test]
fn test_simple_path() {
    let (path, args) = uri_args(&Uri::from_static("/api/users"));
    assert_eq!(path, "/api/users");
    assert!(args.0.is_empty());
}

#[test]
fn test_path_with_query() {
    let (path, args) = uri_args(&Uri::from_static("/search?q=rust"));
    assert_eq!(path, "/search");
    assert_eq!(args.0.len(), 1);
    assert_eq!(args.0[0], ("q".to_string(), "rust".to_string()));
}

#[test]
fn test_path_with_multiple_params() {
    let (path, args) = uri_args(&Uri::from_static("/api?q=1&page=2&size=10"));
    assert_eq!(path, "/api");
    assert_eq!(args.0.len(), 3);
}

#[test]
fn test_empty_query() {
    let (path, args) = uri_args(&Uri::from_static("/api?"));
    assert_eq!(path, "/api");
    assert!(args.0.is_empty());
}

#[test]
fn test_no_query() {
    let (path, args) = uri_args(&Uri::from_static("/api/users/123"));
    assert_eq!(path, "/api/users/123");
    assert!(args.0.is_empty());
}

#[test]
fn test_special_characters_in_query() {
    let (path, args) = uri_args(&Uri::from_static("/search?q=hello%20world"));
    assert_eq!(path, "/search");
    assert_eq!(args.0[0].0, "q");
}

#[test]
fn test_nested_path() {
    let (path, _args) = uri_args(&Uri::from_static("/a/b/c/d"));
    assert_eq!(path, "/a/b/c/d");
}

#[test]
fn test_trailing_slash() {
    let (path, _args) = uri_args(&Uri::from_static("/api/"));
    assert_eq!(path, "/api/");
}

#[test]
fn test_full_request_line_flow() {
    let version_str = version_string(http::Version::HTTP_11);
    let uri = Uri::from_static("/test?a=1");
    assert_eq!(request_line("GET", uri.path_and_query(), version_str), "GET /test?a=1 HTTP/1.1");
}

#[test]
fn test_full_header_flow() {
    let mut headers = HeaderMap::new();
    headers.insert(header::HOST, HeaderValue::from_static("example.com"));
    headers.insert(header::CONTENT_TYPE, HeaderValue::from_static("application/json"));
    let raw = raw_header(&headers);
    assert!(raw.contains("host: example.com"));
    assert!(raw.contains("content-type: application/json"));
}

#[test]
fn test_uri_to_state_flow() {
    let (path, uri_args) = uri_args(&Uri::from_static("/api/users?id=42&name=test"));
    let built_uri = if uri_args.0.is_empty() {
        path.clone()
    } else {
        format!("{}?{}", path, uri_args.to_query())
    };
    assert!(built_uri.contains("/api/users"));
    assert!(built_uri.contains("id=42"));
    assert!(built_uri.contains("name=test"));
}

#[test]
fn test_version_conversion_consistency() {
    let versions = [
        http::Version::HTTP_09,
        http::Version::HTTP_10,
        http::Version::HTTP_11,
        http::Version::HTTP_2,
        http::Version::HTTP_3,
    ];
    for v in versions {
        let float_val = version_float(v);
        let string_val = version_string(v);
        match float_val {
            Some(x) if x == 0.9 => assert_eq!(string_val, "HTTP/0.9"),
            Some(x) if x == 1.0 => assert_eq!(string_val, "HTTP/1.0"),
            Some(x) if x == 1.1 => assert_eq!(string_val, "HTTP/1.1"),
            Some(x) if x == 2.0 => assert_eq!(string_val, "HTTP/2.0"),
            Some(x) if x == 3.0 => assert_eq!(string_val, "HTTP/3.0"),
            _ => {}
        }
    }
}

#[test]
fn test_raw_header_with_binary_value() {
    let mut headers = HeaderMap::new();
    headers.insert(
        header::CONTENT_DISPOSITION,
        HeaderValue::from_static("attachment; filename=\"test.txt\""),
    );
    assert!(raw_header(&headers).contains("content-disposition"));
}

#[test]
fn test_request_line_with_complex_path() {
    let uri = Uri::from_static("/api/v1/users/123/profile/settings?debug=true");
    let result = request_line("PATCH", uri.path_and_query(), "HTTP/2.0");
    assert!(result.starts_with("PATCH "));
    assert!(result.ends_with(" HTTP/2.0"));
    assert!(result.contains("/api/v1/users/123/profile/settings"));
}

#[test]
fn test_uri_args_preserves_order() {
    let (_, args) = uri_args(&Uri::from_static("/?a=1&b=2&c=3&d=4&e=5"));
    let keys: Vec<_> = args.0.iter().map(|(k, _)| k.clone()).collect();
    assert_eq!(keys, vec!["a", "b", "c", "d", "e"]);
}

#[test]
fn test_root_path_parsing() {
    let (path, _) = uri_args(&Uri::from_static("/"));
    assert_eq!(path, "/");
}

#[test]
fn raw_header_skips_unreadable_values() {
    let mut headers = HeaderMap::new();
    headers.append("a", HeaderValue::from_bytes(&[0x68, 0x69]).unwrap());
    headers.append("b", HeaderValue::from_bytes(&[0xff]).unwrap());
    headers.append("c", HeaderValue::from_bytes(&[0x09, 0x7e]).unwrap());
    headers.append("a", HeaderValue::from_bytes(b"yo").unwrap());
    assert_eq!(build_raw_header(&headers), "a: hi\r\na: yo\r\nc: \t~\r\n");
}
