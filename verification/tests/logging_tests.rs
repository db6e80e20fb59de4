use candy::config::LogFormat;
use candy::logging::{AccessLog, Timestamp};

fn sample(path: &str, size: usize, ms: u64) -> AccessLog {
    AccessLog::new(
        "127.0.0.1:8080".to_string(),
        "GET".to_string(),
        path.to_string(),
        "HTTP/1.1".to_string(),
        200,
        size,
        ms,
    )
}

#[test]
fn test_access_log_new() {
    let log = sample("/index.html", 1024, 50);
    assert_eq!(log.method, "GET");
    assert_eq!(log.status, 200);
    assert_eq!(log.response_size, 1024);
    assert_eq!(log.response_time_ms, 50);
}

#[test]
fn test_access_log_with_referer() {
    let log = sample("/", 100, 10).with_referer(Some("http://example.com".to_string()));
    assert_eq!(log.referer, Some("http://example.com".to_string()));
}

#[test]
fn test_access_log_with_user_agent() {
    let log = sample("/", 100, 10).with_user_agent(Some("Mozilla/5.0".to_string()));
    assert_eq!(log.user_agent, Some("Mozilla/5.0".to_string()));
}

#[test]
fn test_access_log_to_combined() {
    let log = sample("/index.html", 1024, 50);
    let combined = log.to_combined();
    assert!(combined.contains("127.0.0.1:8080"));
    assert!(combined.contains("GET /index.html HTTP/1.1"));
    assert!(combined.contains("200"));
    assert!(combined.contains("1024"));
    assert!(combined.contains("50"));
}

#[test]
fn test_access_log_to_json() {
    let log = sample("/index.html", 1024, 50);
    let json = log.to_json();
    assert!(json.contains("\"method\":\"GET\""));
    assert!(json.contains("\"status\":200"));
    assert!(json.contains("\"response_size\":1024"));
    assert!(json.contains("\"response_time_ms\":50"));
}

#[test]
fn test_log_format_combined() {
    let log = sample("/", 100, 10);
    let formatted = log.format(LogFormat::Combined);
    assert!(formatted.starts_with("127.0.0.1:8080"));
}

#[test]
fn test_log_format_json() {
    let log = sample("/", 100, 10);
    let formatted = log.format(LogFormat::Json);
    assert!(formatted.starts_with('{'));
    assert!(formatted.ends_with('}'));
}

fn fixed(nanos: u32) -> AccessLog {
    let mut log = sample("/a b", 7, 3).with_referer(Some("http://r/".to_string()));
    log.timestamp = Timestamp { secs: 971186136, nanos };
    log
}

#[test]
fn access_log_combined_line_exact() {
    assert_eq!(
        fixed(0).to_combined(),
        "127.0.0.1:8080 - - [10/Oct/2000:13:55:36 +0000] \"GET /a b HTTP/1.1\" 200 7 \"http://r/\" \"-\" 3"
    );
    assert_eq!(
        fixed(0).combined_with_time("T"),
        "127.0.0.1:8080 - - [T] \"GET /a b HTTP/1.1\" 200 7 \"http://r/\" \"-\" 3"
    );
}

#[test]
fn access_log_json_line_exact() {
    assert_eq!(
        fixed(0).to_json(),
        "{\"timestamp\":\"2000-10-10T13:55:36+00:00\",\"client_addr\":\"127.0.0.1:8080\",\"method\":\"GET\",\"path\":\"/a b\",\"version\":\"HTTP/1.1\",\"status\":200,\"response_size\":7,\"response_time_ms\":3,\"referer\":\"http://r/\",\"user_agent\":\"-\"}"
    );
    assert!(fixed(500_000_000).to_json().starts_with("{\"timestamp\":\"2000-10-10T13:55:36.500+00:00\""));
    assert_eq!(fixed(0).format(LogFormat::Json), fixed(0).json_with_time("2000-10-10T13:55:36+00:00"));
}

#[test]
fn time_texts_for_leap_day_and_fractions() {
    let mut log = sample("/", 1, 1);
    log.timestamp = Timestamp { secs: 1709251199, nanos: 0 };
    assert!(log.to_combined().contains("[29/Feb/2024:23:59:59 +0000]"));
    assert!(log.to_json().contains("\"2024-02-29T23:59:59+00:00\""));
    log.timestamp = Timestamp { secs: 0, nanos: 500_000_000 };
    assert!(log.to_combined().contains("[01/Jan/1970:00:00:00 +0000]"));
    assert!(log.to_json().contains("\"1970-01-01T00:00:00.500+00:00\""));
    log.timestamp = Timestamp { secs: 0, nanos: 1_500 };
    assert!(log.to_json().contains("\"1970-01-01T00:00:00.000001500+00:00\""));
    log.timestamp = Timestamp { secs: 0, nanos: 2_000 };
    assert!(log.to_json().contains("\"1970-01-01T00:00:00.000002+00:00\""));
}
