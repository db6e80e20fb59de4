use candy::config::{
    parse_http_config, parse_log_config, parse_tls_config, LogFormat, RawHttpConfig,
    RawLogConfig, RawTlsConfig, TlsConfigError, Config, ConfigError, ConfigFacts, RawConfig,
    RawServerConfig, server_listen, server_root,
};
use candy::frame::{collect_headers, HttpFrame};
use candy::lua_engine::shared_dict::{LuaSharedDict, SharedDictEntry, SharedDictError, SizeError};
use candy::tls::TlsError;
use candy::utils::config_watcher::{
    is_relevant_event, needs_re_watch, on_reload_done, on_watch_event, retry_after_failure,
    ConfigWatcherConfig, WatchAction, WatchEventKind, WatchState,
};
use candy::utils::service::parse_port_from_host;

#[test]
fn test_tls_error_display() {
    let err = TlsError::NoCertificate;
    assert_eq!(err.to_string(), "No valid certificate found");
    let err = TlsError::NoPrivateKey;
    assert_eq!(err.to_string(), "No valid private key found");
}

#[test]
fn tls_error_messages_with_detail() {
    assert_eq!(TlsError::KeyParse("bad".to_string()).to_string(), "Private key parse error: bad");
    assert_eq!(
        TlsError::CertificateParse("x".to_string()).to_string(),
        "Certificate parse error: x"
    );
    let io = std::io::Error::new(std::io::ErrorKind::Other, "boom");
    assert_eq!(TlsError::Io(io).to_string(), "IO error: boom");
}

#[test]
fn test_default_watcher_config() {
    let default_config = ConfigWatcherConfig::default();
    assert_eq!(default_config.debounce_ms, 500);
    assert_eq!(default_config.rewatch_delay_ms, 800);
    assert_eq!(default_config.max_retries, 5);
    assert_eq!(default_config.retry_delay_ms, 100);
    assert_eq!(default_config.poll_timeout_secs, 1);
}

#[test]
fn test_parse_port_from_host_with_port() {
    assert_eq!(parse_port_from_host("localhost:8080", "http"), Some(8080));
    assert_eq!(parse_port_from_host("127.0.0.1:9090", "https"), Some(9090));
    assert_eq!(parse_port_from_host("[::1]:3000", "http"), Some(3000));
}

#[test]
fn test_parse_port_from_host_without_port() {
    assert_eq!(parse_port_from_host("localhost", "http"), Some(80));
    assert_eq!(parse_port_from_host("example.com", "https"), Some(443));
    assert_eq!(parse_port_from_host("192.168.1.1", "http"), Some(80));
}

#[test]
fn test_parse_port_from_host_invalid_scheme() {
    assert_eq!(parse_port_from_host("localhost", "ftp"), None);
    assert_eq!(parse_port_from_host("example.com:8080", "ws"), Some(8080));
}

#[test]
fn test_parse_port_from_host_invalid_port() {
    assert_eq!(parse_port_from_host("localhost:abc", "http"), None);
    assert_eq!(parse_port_from_host("example.com:port", "https"), None);
    assert_eq!(parse_port_from_host("localhost:65536", "http"), None);
}

#[test]
fn test_parse_port_from_host_empty_string() {
    assert_eq!(parse_port_from_host("", "http"), None);
    assert_eq!(parse_port_from_host(":", "https"), None);
}

#[test]
fn port_from_host_more() {
    assert_eq!(parse_port_from_host("[::1]", "http"), Some(80));
    assert_eq!(parse_port_from_host("a:1:2", "http"), Some(1));
    assert_eq!(parse_port_from_host("a:+8", "http"), Some(8));
}

#[test]
fn test_lua_shared_dict_parse_size() {
    let dict = LuaSharedDict { name: "test".to_string(), size: "10k".to_string() };
    assert_eq!(dict.parse_size().unwrap(), 10 * 1024);
    let dict = LuaSharedDict { name: "test".to_string(), size: "10m".to_string() };
    assert_eq!(dict.parse_size().unwrap(), 10 * 1024 * 1024);
    let dict = LuaSharedDict { name: "test".to_string(), size: "1g".to_string() };
    assert_eq!(dict.parse_size().unwrap(), 1024 * 1024 * 1024);
    let dict = LuaSharedDict { name: "test".to_string(), size: "1024".to_string() };
    assert_eq!(dict.parse_size().unwrap(), 1024);
}

#[test]
fn dict_size_errors() {
    let d = LuaSharedDict { name: "t".to_string(), size: "k".to_string() };
    assert_eq!(d.parse_size(), Err(SizeError::Invalid));
    let d = LuaSharedDict { name: "t".to_string(), size: "12x".to_string() };
    assert_eq!(d.parse_size(), Err(SizeError::Invalid));
    let d = LuaSharedDict { name: "t".to_string(), size: "99999999999999999999g".to_string() };
    assert!(d.parse_size().is_err());
}

#[test]
fn dict_entries() {
    let e = SharedDictEntry::full_at(b"v".to_vec(), Some(10), 3, 100);
    assert_eq!(e.expires_at, Some(110));
    assert!(!e.is_expired_at(110));
    assert!(e.is_expired_at(111));
    let e = SharedDictEntry::new(b"v".to_vec());
    assert!(!e.is_expired());
    assert_eq!(e.user_flags, 0);
    let e = SharedDictEntry::full_at(Vec::new(), Some(u64::MAX), 0, 5);
    assert_eq!(e.expires_at, Some(u64::MAX));
    assert_eq!(SharedDictError::NotANumber.to_string(), "not a number");
}

#[test]
fn http_config_defaults() {
    let c = parse_http_config(None);
    assert_eq!((c.max_header_size, c.keep_alive_timeout), (8192, 60));
    let raw = RawHttpConfig { max_header_size: Some(100), keep_alive_timeout: None };
    let c = parse_http_config(Some(&raw));
    assert_eq!((c.max_header_size, c.keep_alive_timeout), (100, 60));
}

#[test]
fn log_config_defaults() {
    let c = parse_log_config(None);
    assert!(c.access);
    assert_eq!(c.format, LogFormat::Combined);
    let raw = RawLogConfig { access: Some(false), format: Some("json".to_string()) };
    let c = parse_log_config(Some(&raw));
    assert!(!c.access);
    assert_eq!(c.format, LogFormat::Json);
    let raw = RawLogConfig { access: None, format: Some("JSON".to_string()) };
    assert_eq!(parse_log_config(Some(&raw)).format, LogFormat::Combined);
}

#[test]
fn tls_config_decisions() {
    assert!(matches!(parse_tls_config(None, true, true), Ok(None)));
    let raw = RawTlsConfig { enabled: Some(true), cert: "c.pem".to_string(), key: "k.pem".to_string() };
    assert!(matches!(parse_tls_config(Some(&raw), false, true), Err(TlsConfigError::TlsCertNotFound(p)) if p == "c.pem"));
    assert!(matches!(parse_tls_config(Some(&raw), true, false), Err(TlsConfigError::TlsKeyNotFound(p)) if p == "k.pem"));
    let t = parse_tls_config(Some(&raw), true, true).unwrap().unwrap();
    assert!(t.enabled);
    let off = RawTlsConfig { enabled: None, cert: String::new(), key: String::new() };
    assert!(matches!(parse_tls_config(Some(&off), false, false), Ok(None)));
}

#[test]
fn frame_headers_first_value_wins() {
    let lines = ["GET / HTTP/1.1", "Host: a", "X: 1", "Host: b", "bad line"];
    let h = collect_headers(&lines);
    assert_eq!(h, vec![("Host".to_string(), "a".to_string()), ("X".to_string(), "1".to_string())]);
}

#[test]
fn frame_from_text() {
    let f = HttpFrame::from_request_str("GET /p HTTP/1.1\r\nHost: x\r\n\r\n".to_string()).unwrap();
    assert_eq!(f.router[0], ("method", Some("GET".to_string())));
    assert_eq!(f.router[1], ("path", Some("/p".to_string())));
    assert_eq!(f.headers, vec![("Host".to_string(), "x".to_string())]);
    assert!(HttpFrame::from_request_str(String::new()).is_err());
    let f = HttpFrame::from_request_str("ONLY".to_string()).unwrap();
    assert_eq!(f.router[1], ("path", None));
}

fn raw_config(workers: Option<usize>, tls: Option<RawTlsConfig>) -> RawConfig {
    RawConfig {
        server: Some(RawServerConfig {
            listen: Some("127.0.0.1:8443".to_string()),
            workers,
            root: Some("/srv/www".to_string()),
        }),
        tls,
        http: Some(RawHttpConfig { max_header_size: Some(4096), keep_alive_timeout: None }),
        log: Some(RawLogConfig { access: Some(false), format: Some("json".to_string()) }),
    }
}

fn facts(listen_valid: bool, root_exists: bool, cert: bool, key: bool) -> ConfigFacts {
    ConfigFacts { listen_valid, root_exists, available_workers: 8, cert_exists: cert, key_exists: key }
}

#[test]
fn config_from_raw_applies_defaults_and_facts() {
    let c = Config::from_raw(&raw_config(None, None), facts(true, true, false, false)).unwrap();
    assert_eq!(c.server.workers, 8);
    assert_eq!(c.server.listen, "127.0.0.1:8443");
    assert!(c.tls.is_none());
    assert_eq!(c.http.max_header_size, 4096);
    assert_eq!(c.http.keep_alive_timeout, 60);
    assert!(!c.log.access);
    assert_eq!(c.log.format, LogFormat::Json);
}

#[test]
fn config_from_raw_checks_in_order() {
    let tls = Some(RawTlsConfig { enabled: Some(true), cert: "c.pem".to_string(), key: "k.pem".to_string() });
    let e = Config::from_raw(&raw_config(Some(0), tls.clone()), facts(false, false, false, false)).unwrap_err();
    assert_eq!(e.message(), "Invalid listen address: 127.0.0.1:8443");
    let e = Config::from_raw(&raw_config(Some(0), tls.clone()), facts(true, false, false, false)).unwrap_err();
    assert_eq!(e.message(), "Invalid root path: /srv/www");
    let e = Config::from_raw(&raw_config(Some(0), tls.clone()), facts(true, true, false, false)).unwrap_err();
    assert_eq!(e.message(), "Invalid worker count: 0");
    let e = Config::from_raw(&raw_config(Some(2), tls.clone()), facts(true, true, false, false)).unwrap_err();
    assert_eq!(e.message(), "TLS enabled but certificate not found: c.pem");
    let e = Config::from_raw(&raw_config(Some(2), tls.clone()), facts(true, true, true, false)).unwrap_err();
    assert_eq!(e.message(), "TLS enabled but key not found: k.pem");
    let c = Config::from_raw(&raw_config(Some(2), tls), facts(true, true, true, true)).unwrap();
    assert_eq!(c.server.workers, 2);
    assert_eq!(c.tls.unwrap().cert, "c.pem");
}

#[test]
fn config_error_messages() {
    assert_eq!(ConfigError::Io("denied".to_string()).message(), "IO error: denied");
    assert_eq!(ConfigError::Toml("bad".to_string()).message(), "TOML parse error: bad");
}

#[test]
fn watcher_debounces_and_rewatches() {
    let cfg = ConfigWatcherConfig::default();
    assert!(is_relevant_event(WatchEventKind::ModifyData));
    assert!(!is_relevant_event(WatchEventKind::Access));
    assert!(needs_re_watch(WatchEventKind::Remove));
    assert!(!needs_re_watch(WatchEventKind::Create));
    let s0 = WatchState { last_event_ms: 0, processing: false };
    let (s1, a1) = on_watch_event(s0, WatchEventKind::ModifyName, 1000, &cfg);
    assert_eq!(a1, WatchAction::Reload { rewatch_first: true });
    assert_eq!(s1, WatchState { last_event_ms: 1000, processing: true });
    let (s2, a2) = on_watch_event(s1, WatchEventKind::ModifyData, 2000, &cfg);
    assert_eq!((s2, a2), (s1, WatchAction::Ignore));
    let s3 = on_reload_done(s2);
    assert_eq!(on_watch_event(s3, WatchEventKind::ModifyData, 1500, &cfg).1, WatchAction::Ignore);
    assert_eq!(on_watch_event(s3, WatchEventKind::ModifyData, 1501, &cfg).1, WatchAction::Reload { rewatch_first: false });
    assert!(retry_after_failure(4, 5));
    assert!(!retry_after_failure(5, 5));
}

#[test]
fn config_defaults_without_server_table() {
    let raw = RawConfig { server: None, tls: None, http: None, log: None };
    assert_eq!(server_listen(raw.server.as_ref()), "127.0.0.1:8080");
    assert_eq!(server_root(raw.server.as_ref()), ".");
    let c = Config::from_raw(&raw, facts(true, true, false, false)).unwrap();
    assert_eq!(c.server.listen, "127.0.0.1:8080");
    assert_eq!(c.server.root, ".");
    assert_eq!(c.server.workers, 8);
    assert_eq!(c.http.keep_alive_timeout, 60);
    assert_eq!(c.log.format, LogFormat::Combined);
    assert!(c.log.access);
}

#[test]
fn bracketed_host_without_port_gets_default() {
    assert_eq!(parse_port_from_host("[::1]", "http"), Some(80));
    assert_eq!(parse_port_from_host("[::1]", "https"), Some(443));
    assert_eq!(parse_port_from_host("[::1]", "ftp"), None);
}
