use candy::web::lua::constants::{
    method_id_to_string, HTTP_COPY, HTTP_DELETE, HTTP_GET, HTTP_HEAD, HTTP_LOCK, HTTP_MKCOL,
    HTTP_MOVE, HTTP_OPTIONS, HTTP_PATCH, HTTP_POST, HTTP_PROPFIND, HTTP_PROPPATCH, HTTP_PUT,
    HTTP_TRACE, HTTP_UNLOCK,
};
use candy::web::lua::structures::{CandyHeaders, CandyReqState, CandyResp, CandyResponse};
use candy::web::lua::userdata::{
    cookie_time, crc32_long, crc32_short, date_text, decode_base64, encode_base64, hex_digit_value,
    hmac_sha1, http_time, md5_bin, md5_hex, parse_http_time, sha1_bin, today, url_escape_component,
    url_unescape_component,
};
use candy::web::lua::utils::UriArgs;
use http::{header, HeaderMap, HeaderName, HeaderValue};

fn compute_hmac_sha1(key: &[u8], data: &[u8]) -> Vec<u8> {
    hmac_sha1(key, data)
}

fn to_hex(bytes: &[u8]) -> String {
    bytes.iter().map(|b| format!("{:02x}", b)).collect()
}

fn new_state(method: &str, path: &str) -> CandyReqState {
    CandyReqState {
        method: method.to_string(),
        uri_path: path.to_string(),
        uri_args: UriArgs::new(),
        post_args: None,
        jump: false,
        headers: HeaderMap::new(),
        redirect_status: None,
        output_buffer: String::new(),
    }
}

#[test]
fn test_all_valid_methods() {
    assert_eq!(method_id_to_string(HTTP_GET), Some("GET"));
    assert_eq!(method_id_to_string(HTTP_HEAD), Some("HEAD"));
    assert_eq!(method_id_to_string(HTTP_PUT), Some("PUT"));
    assert_eq!(method_id_to_string(HTTP_POST), Some("POST"));
    assert_eq!(method_id_to_string(HTTP_DELETE), Some("DELETE"));
    assert_eq!(method_id_to_string(HTTP_OPTIONS), Some("OPTIONS"));
    assert_eq!(method_id_to_string(HTTP_MKCOL), Some("MKCOL"));
    assert_eq!(method_id_to_string(HTTP_COPY), Some("COPY"));
    assert_eq!(method_id_to_string(HTTP_MOVE), Some("MOVE"));
    assert_eq!(method_id_to_string(HTTP_PROPFIND), Some("PROPFIND"));
    assert_eq!(method_id_to_string(HTTP_PROPPATCH), Some("PROPPATCH"));
    assert_eq!(method_id_to_string(HTTP_LOCK), Some("LOCK"));
    assert_eq!(method_id_to_string(HTTP_UNLOCK), Some("UNLOCK"));
    assert_eq!(method_id_to_string(HTTP_PATCH), Some("PATCH"));
    assert_eq!(method_id_to_string(HTTP_TRACE), Some("TRACE"));
}

#[test]
fn test_invalid_method_id() {
    assert_eq!(method_id_to_string(100), None);
    assert_eq!(method_id_to_string(999), None);
    assert_eq!(method_id_to_string(u16::MAX), None);
}

#[test]
fn test_new_headers() {
    let candy_headers = CandyHeaders::new(HeaderMap::new());
    assert!(candy_headers.headers.is_empty());
}

#[test]
fn test_headers_with_values() {
    let mut headers = HeaderMap::new();
    headers.insert(header::CONTENT_TYPE, HeaderValue::from_static("text/html"));
    headers.insert(header::CONTENT_LENGTH, HeaderValue::from_static("100"));
    let candy_headers = CandyHeaders::new(headers);
    assert_eq!(candy_headers.headers.get(header::CONTENT_TYPE).unwrap(), "text/html");
    assert_eq!(candy_headers.headers.get(header::CONTENT_LENGTH).unwrap(), "100");
}

#[test]
fn test_headers_clone() {
    let mut headers = HeaderMap::new();
    headers.insert(header::HOST, HeaderValue::from_static("localhost"));
    let candy_headers = CandyHeaders::new(headers);
    let cloned = candy_headers.clone();
    assert_eq!(cloned.headers.get(header::HOST).unwrap(), "localhost");
}

#[test]
fn test_candy_resp_creation() {
    let mut headers = HeaderMap::new();
    headers.insert(header::CONTENT_TYPE, HeaderValue::from_static("application/json"));
    let resp = CandyResp { headers: CandyHeaders::new(headers) };
    assert!(resp.headers.headers.contains_key("content-type"));
    let response = CandyResponse { status: 200, headers: CandyHeaders::new(HeaderMap::new()), body: String::new() };
    assert_eq!(response.status, 200);
}

#[test]
fn test_header_insert_and_get() {
    let mut headers = HeaderMap::new();
    headers.insert(
        HeaderName::from_static("content-type"),
        HeaderValue::from_static("application/json"),
    );
    assert_eq!(headers.get("content-type").unwrap(), "application/json");
}

#[test]
fn test_header_append() {
    let mut headers = HeaderMap::new();
    headers.append(HeaderName::from_static("set-cookie"), HeaderValue::from_static("a=1"));
    headers.append(HeaderName::from_static("set-cookie"), HeaderValue::from_static("b=2"));
    let values: Vec<_> = headers.get_all("set-cookie").iter().collect();
    assert_eq!(values.len(), 2);
}

#[test]
fn test_header_remove() {
    let mut headers = HeaderMap::new();
    headers.insert(
        HeaderName::from_static("content-type"),
        HeaderValue::from_static("text/html"),
    );
    headers.remove("content-type");
    assert!(headers.get("content-type").is_none());
}

#[test]
fn request_state_clone_keeps_headers() {
    let mut s = new_state("GET", "/x");
    s.headers.insert(header::ACCEPT, HeaderValue::from_static("*/*"));
    let c = s.clone();
    assert_eq!(c.method, "GET");
    assert_eq!(c.uri_path, "/x");
    assert_eq!(c.headers.get(header::ACCEPT).unwrap(), "*/*");
}

#[test]
fn test_from_query_simple() {
    let args = UriArgs::from_query("a=1&b=2");
    assert_eq!(args.0.len(), 2);
    assert_eq!(args.0[0], ("a".to_string(), "1".to_string()));
    assert_eq!(args.0[1], ("b".to_string(), "2".to_string()));
}

#[test]
fn test_from_query_empty_value() {
    let args = UriArgs::from_query("flag&key=value");
    assert_eq!(args.0.len(), 2);
    assert_eq!(args.0[0].0, "flag");
    assert_eq!(args.0[0].1, "");
    assert_eq!(args.0[1], ("key".to_string(), "value".to_string()));
}

#[test]
fn test_from_query_empty() {
    let args = UriArgs::from_query("");
    assert!(args.0.is_empty());
}

#[test]
fn test_to_query_simple() {
    let args = UriArgs(vec![
        ("a".to_string(), "1".to_string()),
        ("b".to_string(), "2".to_string()),
    ]);
    let query = args.to_query();
    assert!(query.contains("a=1"));
    assert!(query.contains("b=2"));
}

#[test]
fn test_to_query_empty_value() {
    let args = UriArgs(vec![("flag".to_string(), "".to_string())]);
    let query = args.to_query();
    assert!(query.contains("flag"));
    assert!(!query.contains("flag="));
}

#[test]
fn test_header_name_normalization_underscore() {
    assert_eq!(CandyHeaders::normalize_header_name("content_type"), "content-type");
}

#[test]
fn test_build_uri_from_state() {
    let mut state = new_state("GET", "/api/users");
    state.uri_args = UriArgs(vec![
        ("page".to_string(), "1".to_string()),
        ("limit".to_string(), "10".to_string()),
    ]);
    let uri = state.build_uri();
    assert!(uri.starts_with("/api/users?"));
    assert!(uri.contains("page=1"));
    assert!(uri.contains("limit=10"));
}

#[test]
fn test_state_with_post_args() {
    let mut state = new_state("POST", "/submit");
    state.post_args = Some(UriArgs(vec![("name".to_string(), "test".to_string())]));
    assert!(state.post_args.is_some());
    assert_eq!(state.post_args.as_ref().unwrap().0[0].0, "name");
}

#[test]
fn test_encode_base64_simple() {
    assert_eq!(encode_base64(b"hello", false), "aGVsbG8=");
}

#[test]
fn test_encode_base64_empty() {
    assert_eq!(encode_base64(b"", false), "");
}

#[test]
fn test_encode_base64_no_padding() {
    assert!(!encode_base64(b"hello", true).ends_with('='));
    assert_eq!(encode_base64(b"hello", true), "aGVsbG8");
}

#[test]
fn test_encode_base64_binary() {
    assert_eq!(encode_base64(&[0x00, 0x01, 0x02, 0xff, 0xfe], false), "AAEC//4=");
}

#[test]
fn test_decode_base64_simple() {
    let decoded = decode_base64(b"aGVsbG8=").unwrap();
    assert_eq!(String::from_utf8_lossy(&decoded), "hello");
}

#[test]
fn test_decode_base64_invalid() {
    assert!(decode_base64(b"!!invalid!!").is_none());
}

#[test]
fn test_decode_base64_missing_padding() {
    assert!(decode_base64(b"aGVsbG8").is_none());
}

#[test]
fn test_encode_decode_roundtrip() {
    let original = "The quick brown fox jumps over the lazy dog";
    let encoded = encode_base64(original.as_bytes(), false);
    let decoded = decode_base64(encoded.as_bytes()).unwrap();
    assert_eq!(String::from_utf8_lossy(&decoded), original);
}

#[test]
fn test_crc32_empty() {
    assert_eq!(crc32_short(b""), 0);
}

#[test]
fn test_crc32_hello() {
    assert_eq!(crc32_short(b"hello"), 907060870);
}

#[test]
fn test_crc32_known_values() {
    assert_eq!(crc32_long(b"123456789"), 0xCBF43926);
}

#[test]
fn test_crc32_consistency() {
    let data = b"test data for consistency check";
    assert_eq!(crc32_short(data), crc32_long(data));
}

#[test]
fn test_hmac_sha1_basic() {
    let digest = compute_hmac_sha1(b"thisisverysecretstuff", b"some string we want to sign");
    assert_eq!(encode_base64(&digest, false), "R/pvxzHC4NLtj7S+kXFg/NePTmk=");
}

#[test]
fn test_hmac_sha1_empty_key() {
    assert_eq!(compute_hmac_sha1(b"", b"test data").len(), 20);
}

#[test]
fn test_hmac_sha1_rfc_test_case() {
    let key = [0x0b; 20];
    let data = b"Hi There";
    let digest = compute_hmac_sha1(&key, data);
    let expected: [u8; 20] = [
        0xb6, 0x17, 0x31, 0x86, 0x55, 0x05, 0x72, 0x64, 0xe2, 0x8b, 0xc0, 0xb6, 0xfb, 0x37, 0x8c,
        0x8e, 0xf1, 0x46, 0xbe, 0x00,
    ];
    assert_eq!(digest.as_slice(), expected);
}

#[test]
fn test_hmac_sha1_consistency() {
    let key = b"secret_key";
    let data = b"test data";
    assert_eq!(compute_hmac_sha1(key, data), compute_hmac_sha1(key, data));
}

#[test]
fn test_hmac_sha1_different_keys() {
    let data = b"test data";
    assert_ne!(compute_hmac_sha1(b"key1", data), compute_hmac_sha1(b"key2", data));
}

#[test]
fn test_hmac_sha1_different_data() {
    let key = b"secret_key";
    assert_ne!(compute_hmac_sha1(key, b"data1"), compute_hmac_sha1(key, b"data2"));
}

#[test]
fn test_hmac_sha1_long_key() {
    let key = "a".repeat(100);
    assert_eq!(compute_hmac_sha1(key.as_bytes(), b"test").len(), 20);
}

#[test]
fn test_md5_hello() {
    assert_eq!(md5_hex(b"hello"), "5d41402abc4b2a76b9719d911017c592");
}

#[test]
fn test_md5_known_values() {
    assert_eq!(md5_hex(b""), "d41d8cd98f00b204e9800998ecf8427e");
    assert_eq!(md5_hex(b"a"), "0cc175b9c0f1b6a831c399e269772661");
    assert_eq!(md5_hex(b"abc"), "900150983cd24fb0d6963f7d28e17f72");
    assert_eq!(md5_hex(b"message digest"), "f96b697d7cb7938d525a2f31aaf161d0");
}

#[test]
fn test_md5_bin_vs_hex_consistency() {
    let data = b"test data";
    assert_eq!(to_hex(&md5_bin(data)), md5_hex(data));
    assert_eq!(md5_bin(data).len(), 16);
}

#[test]
fn test_sha1_bin_known_values() {
    assert_eq!(to_hex(&sha1_bin(b"")), "da39a3ee5e6b4b0d3255bfef95601890afd80709");
    assert_eq!(to_hex(&sha1_bin(b"a")), "86f7e437faa5a7fce15d1ddcb9eaeaea377667b8");
    assert_eq!(to_hex(&sha1_bin(b"abc")), "a9993e364706816aba3e25717850c26c9cd0d89d");
    assert_eq!(to_hex(&sha1_bin(b"hello")), "aaf4c61ddcc5e8a2dabede0f3b482cd9aea9434d");
}

#[test]
fn test_none_body() {
    let body: Option<Vec<u8>> = None;
    assert!(body.is_none());
}

#[test]
fn test_uri_with_special_chars() {
    let args = UriArgs::from_query("q=hello%20world&lang=en");
    assert!(!args.0.is_empty());
    assert_eq!(args.0[0].0, "q");
    assert_eq!(args.0[0].1, "hello world");
}

#[test]
fn test_state_jump_flag() {
    let mut state = new_state("GET", "/original");
    state.jump = true;
    assert!(state.jump);
}

#[test]
fn escape_and_unescape_components() {
    assert_eq!(url_escape_component("a b&c/é~"), "a%20b%26c%2F%C3%A9~");
    assert_eq!(url_unescape_component("b%20r56+7"), "b r56 7");
    assert_eq!(url_unescape_component("%zz%4"), "%zz%4");
    assert_eq!(url_unescape_component("%C3%A9"), "é");
    let s = "key=va lue/ü?&";
    assert_eq!(url_unescape_component(&url_escape_component(s)), s);
}

#[test]
fn hex_digit_values() {
    assert_eq!(hex_digit_value(b'0'), Some(0));
    assert_eq!(hex_digit_value(b'f'), Some(15));
    assert_eq!(hex_digit_value(b'F'), Some(15));
    assert_eq!(hex_digit_value(b'g'), None);
}

#[test]
fn headers_table_groups_readable_values() {
    let mut headers = HeaderMap::new();
    headers.append(header::SET_COOKIE, HeaderValue::from_static("a=1"));
    headers.append(header::CONTENT_TYPE, HeaderValue::from_static("text/html"));
    headers.append("x-bin", HeaderValue::from_bytes(&[0xff]).unwrap());
    headers.append(header::SET_COOKIE, HeaderValue::from_static("b=2"));
    let table = CandyHeaders::new(headers).get_headers_table();
    assert_eq!(
        table,
        vec![
            ("set-cookie".to_string(), vec!["a=1".to_string(), "b=2".to_string()]),
            ("content-type".to_string(), vec!["text/html".to_string()]),
        ]
    );
    assert!(CandyHeaders::new(HeaderMap::new()).get_headers_table().is_empty());
}

#[test]
fn date_text_counts_days_from_the_epoch() {
    assert_eq!(date_text(0), "1970-01-01");
    assert_eq!(date_text(1290079655), "2010-11-18");
    assert_eq!(date_text(951782400), "2000-02-29");
    assert_eq!(date_text(86399), "1970-01-01");
}

#[test]
fn today_is_a_date() {
    let t = today().unwrap();
    assert_eq!(t.len(), 10);
    assert_eq!(&t[4..5], "-");
    assert_eq!(&t[7..8], "-");
}

#[test]
fn http_and_cookie_times() {
    assert_eq!(http_time(1290079655).unwrap(), "Thu, 18 Nov 2010 11:27:35 GMT");
    assert_eq!(cookie_time(1290079655).unwrap(), "Thu, 18-Nov-10 11:27:35 GMT");
    assert_eq!(http_time(951782400).unwrap(), "Tue, 29 Feb 2000 00:00:00 GMT");
    assert_eq!(cookie_time(253402300799).unwrap(), "Fri, 31-Dec-99 23:59:59 GMT");
    assert_eq!(http_time(0).unwrap(), "Thu, 01 Jan 1970 00:00:00 GMT");
    assert!(http_time(i64::MAX).is_none());
    assert!(cookie_time(i64::MIN).is_none());
}

#[test]
fn http_dates_parse_in_three_forms() {
    assert_eq!(parse_http_time("Thu, 18 Nov 2010 11:27:35 GMT"), Some(1290079655));
    assert_eq!(parse_http_time("not a date"), None);
    assert_eq!(parse_http_time(""), None);
    // the asctime form carries no offset, which chrono's `parse_from_str` needs
    assert_eq!(parse_http_time("Thu Nov 18 11:27:35 2010"), None);
}
