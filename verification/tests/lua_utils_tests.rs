use candy::web::lua::utils::{
    days_to_ymd, is_leap_year, parse_query, url_decode, url_encode, UriArgs, UrlDecodeError,
};

#[test]
fn encode_examples() {
    assert_eq!(url_encode("a b"), "a+b");
    assert_eq!(url_encode("a&b=c"), "a%26b%3Dc");
    assert_eq!(url_encode("AZaz09-_.~"), "AZaz09-_.~");
    assert_eq!(url_encode("é"), "%E9");
    assert_eq!(url_encode("+"), "%2B");
}

#[test]
fn decode_examples() {
    assert_eq!(url_decode("a+b").unwrap(), "a b");
    assert_eq!(url_decode("%41%2b").unwrap(), "A+");
    assert_eq!(url_decode("%4"), Err(UrlDecodeError::InvalidPercentEncoding));
    assert_eq!(url_decode("%zz"), Err(UrlDecodeError::InvalidHex));
    assert_eq!(url_decode("%é"), Err(UrlDecodeError::InvalidHex));
    assert_eq!(url_decode("%aé"), Err(UrlDecodeError::InvalidPercentEncoding));
    assert_eq!(url_decode("%+5").unwrap(), "\u{5}");
    assert_eq!(UrlDecodeError::InvalidHex.message(), "Invalid hex");
}

#[test]
fn encode_then_decode_gives_back() {
    for s in ["", "plain", "a b&c=d+e%f", "ÿé ~", "x=1&y=2"] {
        assert_eq!(url_decode(&url_encode(s)).unwrap(), s);
    }
}

#[test]
fn query_parsing() {
    assert_eq!(parse_query(""), vec![]);
    assert_eq!(
        parse_query("a=1&&b&=x&c=%zz&d=%20"),
        vec![("a".to_string(), "1".to_string()), ("b".to_string(), "".to_string()), ("d".to_string(), " ".to_string())]
    );
    assert_eq!(parse_query("k=v=w"), vec![("k".to_string(), "v=w".to_string())]);
    assert_eq!(parse_query("k=a&k=b").len(), 2);
}

#[test]
fn query_round_trip() {
    let args = UriArgs(vec![
        ("a b".to_string(), "c&d".to_string()),
        ("flag".to_string(), String::new()),
        ("k".to_string(), "=+%".to_string()),
        ("a b".to_string(), "again".to_string()),
    ]);
    let q = args.to_query();
    assert_eq!(q, "a+b=c%26d&flag&k=%3D%2B%25&a+b=again");
    assert_eq!(UriArgs::from_query(&q).0, args.0);
}

#[test]
fn leap_years() {
    assert!(is_leap_year(2000));
    assert!(!is_leap_year(1900));
    assert!(is_leap_year(2024));
    assert!(!is_leap_year(2023));
}

#[test]
fn dates_from_days() {
    assert_eq!(days_to_ymd(0), (1970, 1, 1));
    assert_eq!(days_to_ymd(31), (1970, 2, 1));
    assert_eq!(days_to_ymd(59), (1970, 3, 1));
    assert_eq!(days_to_ymd(365), (1971, 1, 1));
    assert_eq!(days_to_ymd(789), (1972, 2, 29));
    assert_eq!(days_to_ymd(19723), (2024, 1, 1));
    assert_eq!(days_to_ymd(-2), (1970, 1, u32::MAX));
}
