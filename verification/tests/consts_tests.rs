use candy::consts::{
    default_compression_enabled, default_compression_level, default_disabled, default_log_folder,
    default_log_level, host_index, timeout_default, upstream_timeout_default, DEFAULT_LOG_FOLDER,
    DEFAULT_LOG_LEVEL, TIMEOUT_EFAULT, UPSTREAM_TIMEOUT,
};

#[test]
fn test_host_index() {
    let index = host_index();
    assert_eq!(index.len(), 1);
    assert_eq!(index[0], "index.html");
}

#[test]
fn test_timeout_default() {
    assert_eq!(timeout_default(), TIMEOUT_EFAULT);
    assert_eq!(timeout_default(), 75);
}

#[test]
fn test_upstream_timeout_default() {
    assert_eq!(upstream_timeout_default(), UPSTREAM_TIMEOUT);
    assert_eq!(upstream_timeout_default(), 5);
}

#[test]
fn test_default_disabled() {
    assert!(!default_disabled());
}

#[test]
fn test_default_log_level() {
    assert_eq!(default_log_level(), DEFAULT_LOG_LEVEL);
    assert_eq!(default_log_level(), "info");
}

#[test]
fn test_default_log_folder() {
    assert_eq!(default_log_folder(), DEFAULT_LOG_FOLDER);
    assert_eq!(default_log_folder(), "./logs");
}

#[test]
fn compression_defaults() {
    assert!(default_compression_enabled());
    assert_eq!(default_compression_level(), 6);
}
