use candy::web::lua::constants::HTTP_POST;
use candy::web::lua::structures::{
    append_body, discard_body, get_body_data, init_body, set_body_data, ArgValue, CandyReqState,
};
use candy::web::lua::utils::UriArgs;
use http::HeaderMap;

fn state() -> CandyReqState {
    CandyReqState {
        method: "GET".to_string(),
        uri_path: "/".to_string(),
        uri_args: UriArgs::new(),
        post_args: None,
        jump: false,
        headers: HeaderMap::new(),
        redirect_status: None,
        output_buffer: String::new(),
    }
}

fn single(v: &str) -> ArgValue {
    ArgValue::Single(Some(v.to_string()))
}

#[test]
fn set_method_by_identifier() {
    let mut s = state();
    assert!(s.set_method(HTTP_POST).is_ok());
    assert_eq!(s.method, "POST");
    assert_eq!(s.set_method(999), Err("Invalid method id: 999".to_string()));
    assert_eq!(s.method, "POST");
}

#[test]
fn set_uri_splits_at_first_question_mark() {
    let mut s = state();
    assert!(s.set_uri("/a?x=1&y?z", Some(true)).is_ok());
    assert_eq!(s.uri_path, "/a");
    assert!(s.jump);
    assert_eq!(s.uri_args.0.len(), 2);
    assert_eq!(s.uri_args.0[0], ("x".to_string(), "1".to_string()));
    assert!(s.set_uri("/b", None).is_ok());
    assert_eq!(s.uri_path, "/b");
    assert!(!s.jump);
    assert_eq!(s.set_uri("", None), Err("uri argument must be a non-empty string".to_string()));
    assert_eq!(s.uri_path, "/b");
}

#[test]
fn uri_args_group_repeated_keys() {
    let mut s = state();
    s.uri_args = UriArgs::from_query("a=1&a=&b&a=3");
    assert_eq!(
        s.get_uri_args(None),
        vec![
            ("a".to_string(), ArgValue::Many(vec![Some("1".to_string()), Some(String::new()), Some("3".to_string())])),
            ("b".to_string(), ArgValue::Single(None)),
        ]
    );
    assert_eq!(
        s.get_uri_args(Some(2)),
        vec![("a".to_string(), ArgValue::Many(vec![Some("1".to_string()), Some(String::new())]))]
    );
    assert_eq!(s.get_uri_args(Some(0)).len(), 2);
}

#[test]
fn post_args_read_once_from_body() {
    let mut s = state();
    let t = s.get_post_args(Some(b"k=v&m=w".as_slice()), None);
    assert_eq!(t, vec![("k".to_string(), single("v")), ("m".to_string(), single("w"))]);
    // later bodies are not read again
    let t = s.get_post_args(Some(b"other=1".as_slice()), None);
    assert_eq!(t.len(), 2);
    let mut empty = state();
    assert!(empty.get_post_args(None, None).is_empty());
}

#[test]
fn exit_records_status() {
    let mut s = state();
    s.exit(302);
    assert_eq!(s.redirect_status, Some(302));
}

#[test]
fn body_operations() {
    let mut body: Option<Vec<u8>> = None;
    assert_eq!(
        append_body(&mut body, b"x"),
        Err("request body not initialized, call cd.req.init_body first".to_string())
    );
    init_body(&mut body);
    assert_eq!(get_body_data(&body), None);
    append_body(&mut body, b"ab").unwrap();
    append_body(&mut body, b"c").unwrap();
    assert_eq!(get_body_data(&body), Some(b"abc".to_vec()));
    set_body_data(&mut body, b"z");
    assert_eq!(get_body_data(&body), Some(b"z".to_vec()));
    discard_body(&mut body);
    assert_eq!(body, None);
}
