use candy::web::proxy::{copy_headers, ip_hash, is_exclude_header};
use http::{header, HeaderMap, HeaderValue};

fn excluded(name: &http::HeaderName) -> bool {
    is_exclude_header(name.as_str())
}

#[test]
fn forward_proxy_test_is_exclude_header() {
    assert!(excluded(&header::HOST));
    assert!(excluded(&header::CONNECTION));
    assert!(excluded(&header::UPGRADE));
    assert!(excluded(&header::PROXY_AUTHENTICATE));
    assert!(excluded(&header::PROXY_AUTHORIZATION));
    assert!(excluded(&http::HeaderName::from_static("keep-alive")));
    assert!(excluded(&header::TRANSFER_ENCODING));
    assert!(excluded(&header::TE));
    assert!(!excluded(&header::USER_AGENT));
    assert!(!excluded(&header::CONTENT_TYPE));
    assert!(!excluded(&header::ACCEPT));
    assert!(!excluded(&header::AUTHORIZATION));
    assert!(!excluded(&header::COOKIE));
    assert!(!excluded(&header::REFERER));
}

#[test]
fn reverse_proxy_test_is_exclude_header() {
    assert!(excluded(&header::HOST));
    assert!(excluded(&header::CONNECTION));
    assert!(excluded(&header::UPGRADE));
    assert!(excluded(&header::PROXY_AUTHENTICATE));
    assert!(excluded(&header::PROXY_AUTHORIZATION));
    assert!(excluded(&http::HeaderName::from_static("keep-alive")));
    assert!(excluded(&header::TRANSFER_ENCODING));
    assert!(excluded(&header::TE));
    assert!(!excluded(&header::USER_AGENT));
    assert!(!excluded(&header::CONTENT_TYPE));
    assert!(!excluded(&header::ACCEPT));
    assert!(!excluded(&header::AUTHORIZATION));
    assert!(!excluded(&header::COOKIE));
    assert!(!excluded(&header::REFERER));
}

#[test]
fn forward_proxy_test_copy_headers() {
    let mut from = HeaderMap::new();
    from.insert(header::HOST, HeaderValue::from_static("example.com"));
    from.insert(header::USER_AGENT, HeaderValue::from_static("test-agent"));
    from.insert(header::CONTENT_TYPE, HeaderValue::from_static("text/plain"));
    from.insert(header::CONNECTION, HeaderValue::from_static("keep-alive"));
    from.insert(header::ACCEPT, HeaderValue::from_static("*/*"));

    let mut to = HeaderMap::new();
    copy_headers(&from, &mut to);

    assert!(!to.contains_key(header::HOST));
    assert!(!to.contains_key(header::CONNECTION));
    assert_eq!(to.get(header::USER_AGENT), Some(&HeaderValue::from_static("test-agent")));
    assert_eq!(to.get(header::CONTENT_TYPE), Some(&HeaderValue::from_static("text/plain")));
    assert_eq!(to.get(header::ACCEPT), Some(&HeaderValue::from_static("*/*")));
}

#[test]
fn reverse_proxy_test_copy_headers() {
    let mut from = HeaderMap::new();
    from.insert(header::HOST, HeaderValue::from_static("example.com"));
    from.insert(header::USER_AGENT, HeaderValue::from_static("test-agent"));
    from.insert(header::CONTENT_TYPE, HeaderValue::from_static("text/plain"));
    from.insert(header::CONNECTION, HeaderValue::from_static("keep-alive"));
    from.insert(header::ACCEPT, HeaderValue::from_static("*/*"));

    let mut to = HeaderMap::new();
    copy_headers(&from, &mut to);

    assert!(!to.contains_key(header::HOST));
    assert!(!to.contains_key(header::CONNECTION));
    assert_eq!(to.get(header::USER_AGENT), Some(&HeaderValue::from_static("test-agent")));
    assert_eq!(to.get(header::CONTENT_TYPE), Some(&HeaderValue::from_static("text/plain")));
    assert_eq!(to.get(header::ACCEPT), Some(&HeaderValue::from_static("*/*")));
}

#[test]
fn copy_headers_keeps_order_and_repeated_values() {
    let mut from = HeaderMap::new();
    from.append(header::SET_COOKIE, HeaderValue::from_static("a=1"));
    from.append(header::TE, HeaderValue::from_static("trailers"));
    from.append(header::ACCEPT, HeaderValue::from_static("text/html"));
    from.append(header::SET_COOKIE, HeaderValue::from_static("b=2"));
    let mut to = HeaderMap::new();
    to.append(header::ACCEPT, HeaderValue::from_static("*/*"));
    assert!(copy_headers(&from, &mut to));
    let pairs: Vec<(String, String)> = to
        .iter()
        .map(|(n, v)| (n.as_str().to_string(), v.to_str().unwrap().to_string()))
        .collect();
    assert_eq!(
        pairs,
        vec![
            ("accept".to_string(), "*/*".to_string()),
            ("accept".to_string(), "text/html".to_string()),
            ("set-cookie".to_string(), "a=1".to_string()),
            ("set-cookie".to_string(), "b=2".to_string()),
        ]
    );
}

#[test]
fn test_ip_hash() {
    let ip1 = "192.168.1.1";
    let hash1 = ip_hash(ip1);
    let hash2 = ip_hash(ip1);
    assert_eq!(hash1, hash2);
    let ip2 = "192.168.1.2";
    assert_ne!(hash1, ip_hash(ip2));
    assert!(ip_hash("::1") > 0);
    assert_ne!(ip_hash("192.168.1.1:8080"), ip_hash("192.168.1.1:9090"));
}

#[test]
fn test_ip_hash_distribution() {
    let ips = [
        "192.168.1.1", "192.168.1.2", "192.168.1.3", "192.168.1.4", "192.168.1.5", "192.168.1.6",
        "192.168.1.7", "192.168.1.8",
    ];
    let hashes: std::collections::HashSet<usize> = ips.iter().map(|ip| ip_hash(ip)).collect();
    assert_eq!(hashes.len(), ips.len());
}

#[test]
fn ip_hash_values() {
    assert_eq!(ip_hash(""), 5381);
    assert_eq!(ip_hash("a"), 5381 * 33 + 97);
}
