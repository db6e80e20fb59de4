use candy::compress::{
    deflate_compress, gzip_compress, parse_accept_encoding, parse_qvalue, select_encoding,
    should_compress, CompressionType, QValue,
};

#[test]
fn test_parse_accept_encoding_gzip() {
    let result = parse_accept_encoding(b"gzip");
    assert_eq!(result, CompressionType::Gzip);
}

#[test]
fn test_parse_accept_encoding_deflate() {
    let result = parse_accept_encoding(b"deflate");
    assert_eq!(result, CompressionType::Deflate);
}

#[test]
fn test_parse_accept_encoding_multiple() {
    let result = parse_accept_encoding(b"gzip, deflate");
    assert_eq!(result, CompressionType::Gzip);
}

#[test]
fn test_parse_accept_encoding_with_q() {
    // gzip and deflate both at q=1.0; gzip wins the tie.
    let result = parse_accept_encoding(b"deflate, gzip;q=1.0, *;q=0.5");
    assert_eq!(result, CompressionType::Gzip);
}

#[test]
fn test_parse_accept_encoding_deflate_higher_q() {
    let result = parse_accept_encoding(b"gzip;q=0.5, deflate");
    assert_eq!(result, CompressionType::Deflate);
}

#[test]
fn test_parse_accept_encoding_empty() {
    let result = parse_accept_encoding(b"");
    assert_eq!(result, CompressionType::Identity);
}

#[test]
fn test_parse_accept_encoding_identity() {
    let result = parse_accept_encoding(b"identity");
    assert_eq!(result, CompressionType::Identity);
}

#[test]
fn test_gzip_compress() {
    let data = b"Hello, World! This is a test string for compression. Hello, World! This is a test string for compression. Hello, World! This is a test string for compression.";
    let compressed = gzip_compress(data).unwrap();
    assert!(compressed.len() < data.len());
    assert_eq!(&compressed[0..2], &[0x1f, 0x8b]);
}

#[test]
fn test_gzip_compress_short() {
    let data = b"Hello";
    let compressed = gzip_compress(data).unwrap();
    assert_eq!(&compressed[0..2], &[0x1f, 0x8b]);
}

#[test]
fn test_should_compress_text() {
    assert!(should_compress("text/html"));
    assert!(should_compress("text/css"));
    assert!(should_compress("text/javascript"));
    assert!(should_compress("application/json"));
    assert!(should_compress("application/javascript"));
    assert!(should_compress("application/xml"));
}

#[test]
fn test_should_compress_not_for_images() {
    assert!(!should_compress("image/jpeg"));
    assert!(!should_compress("image/png"));
    assert!(!should_compress("image/gif"));
    assert!(!should_compress("image/webp"));
}

#[test]
fn test_should_compress_not_for_video() {
    assert!(!should_compress("video/mp4"));
    assert!(!should_compress("audio/mp3"));
}

#[test]
fn test_should_compress_not_for_already_compressed() {
    assert!(!should_compress("application/pdf"));
    assert!(!should_compress("application/zip"));
    assert!(!should_compress("application/gzip"));
}

#[test]
fn should_compress_lowercases_first() {
    assert!(should_compress("TEXT/HTML"));
    assert!(should_compress("Application/WASM"));
    assert!(!should_compress("application/wasm2"));
}

#[test]
fn accept_encoding_is_case_insensitive() {
    assert_eq!(parse_accept_encoding(b"GZIP"), CompressionType::Gzip);
    assert_eq!(parse_accept_encoding(b"X-Gzip"), CompressionType::Gzip);
}

#[test]
fn accept_encoding_zero_q_refuses() {
    assert_eq!(parse_accept_encoding(b"gzip;q=0"), CompressionType::Identity);
    assert_eq!(parse_accept_encoding(b"gzip;q=0, deflate;q=0.1"), CompressionType::Deflate);
}

#[test]
fn accept_encoding_wildcard_means_gzip() {
    assert_eq!(parse_accept_encoding(b"*"), CompressionType::Gzip);
    assert_eq!(parse_accept_encoding(b"br, *;q=0.2"), CompressionType::Gzip);
}

#[test]
fn accept_encoding_highest_q_per_coding() {
    // the best value of each coding counts
    assert_eq!(parse_accept_encoding(b"gzip;q=0.2, deflate;q=0.5, gzip;q=0.9"), CompressionType::Gzip);
}

#[test]
fn accept_encoding_unreadable_q_keeps_default() {
    // a q that does not read leaves the default of one
    assert_eq!(parse_accept_encoding(b"deflate;q=abc, gzip;q=0.5"), CompressionType::Deflate);
}

fn q(text: &str) -> Option<QValue> {
    let cs: Vec<char> = text.chars().collect();
    parse_qvalue(&cs)
}

fn pos(digits: &str, exp: i64) -> Option<QValue> {
    Some(QValue::Positive(digits.chars().collect(), exp))
}

#[test]
fn qvalue_forms() {
    assert_eq!(q("1"), pos("1", 1));
    assert_eq!(q("0.5"), pos("5", 0));
    assert_eq!(q(".25"), pos("25", 0));
    assert_eq!(q("1."), pos("1", 1));
    assert_eq!(q("+0.50"), pos("5", 0));
    assert_eq!(q("0.1234"), pos("1234", 0));
    assert_eq!(q("0.0001"), pos("1", -3));
    assert_eq!(q("1e-3"), pos("1", -2));
    assert_eq!(q("25e1"), pos("25", 3));
    assert_eq!(q("-0.5"), Some(QValue::NotPositive));
    assert_eq!(q("0"), Some(QValue::NotPositive));
    assert_eq!(q("nan"), Some(QValue::NotPositive));
    assert_eq!(q("inf"), Some(QValue::Infinite));
    assert_eq!(q("infinity"), Some(QValue::Infinite));
    assert_eq!(q("-inf"), Some(QValue::NotPositive));
    assert_eq!(q("1e5000"), Some(QValue::Infinite));
    assert_eq!(q("1e-5000"), Some(QValue::NotPositive));
    assert_eq!(q("."), None);
    assert_eq!(q("1e"), None);
    assert_eq!(q("e5"), None);
    assert_eq!(q("a"), None);
    assert_eq!(q(" 1"), None);
}

#[test]
fn small_q_values_are_read_exactly() {
    assert_eq!(parse_accept_encoding(b"gzip;q=0.0001, deflate;q=0.5"), CompressionType::Deflate);
    assert_eq!(parse_accept_encoding(b"gzip;q=0.0001"), CompressionType::Gzip);
    assert_eq!(parse_accept_encoding(b"gzip;q=0.5001, deflate;q=0.5"), CompressionType::Gzip);
    assert_eq!(parse_accept_encoding(b"gzip;q=5e-1, deflate;q=0.5"), CompressionType::Gzip);
    assert_eq!(parse_accept_encoding(b"gzip;q=0.5, deflate;q=1e0"), CompressionType::Deflate);
    assert_eq!(parse_accept_encoding(b"gzip;q=nan, deflate;q=0.1"), CompressionType::Deflate);
    assert_eq!(parse_accept_encoding(b"gzip;q=INF, deflate;q=1"), CompressionType::Gzip);
}

#[test]
fn select_on_lowercased_text() {
    let text: Vec<char> = "deflate;q=0.9, gzip;q=0.9".chars().collect();
    assert_eq!(select_encoding(&text), CompressionType::Gzip);
}

#[test]
fn deflate_output_is_not_input() {
    let data = b"aaaaaaaaaaaaaaaaaaaaaaaaaaaaaaaaaaaaaaaaaaaaaaaaaaaaaaaaaaaaaaaaaaaaaaaa";
    let z = deflate_compress(data).unwrap();
    assert!(z.len() < data.len());
}
