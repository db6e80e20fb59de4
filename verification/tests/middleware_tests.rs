use candy::middlewares::format_latency;
use http::StatusCode;
use std::time::Duration;

fn latency(d: Duration, status: StatusCode) -> String {
    format_latency(d.as_micros() as u64, &status.to_string())
}

#[test]
fn test_format_latency_microseconds() {
    assert_eq!(latency(Duration::from_micros(500), StatusCode::OK), "200 OK 500μs");
}

#[test]
fn test_format_latency_milliseconds() {
    assert_eq!(latency(Duration::from_millis(250), StatusCode::OK), "200 OK 250ms");
}

#[test]
fn test_format_latency_one_millisecond() {
    assert_eq!(latency(Duration::from_millis(1), StatusCode::OK), "200 OK 1ms");
}

#[test]
fn test_format_latency_with_error_status() {
    assert_eq!(latency(Duration::from_micros(800), StatusCode::NOT_FOUND), "404 Not Found 800μs");
}

#[test]
fn test_format_latency_large_value() {
    assert_eq!(
        latency(Duration::from_secs(2), StatusCode::INTERNAL_SERVER_ERROR),
        "500 Internal Server Error 2000ms"
    );
}

#[test]
fn latency_boundaries() {
    assert_eq!(format_latency(999, "200 OK"), "200 OK 999μs");
    assert_eq!(format_latency(1999, "200 OK"), "200 OK 1ms");
    assert_eq!(format_latency(0, "x"), "x 0μs");
}
