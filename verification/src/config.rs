//! Configuration values and the defaults applied to what a configuration
//! file leaves out.

use vstd::prelude::*;
use crate::text::{chars_of, chars_equal, append_str, string_from_chars, u64_to_decimal, decimal};

verus! {

broadcast use vstd::string::group_string_axioms;

/// TLS settings.
#[derive(Debug, Clone)]
pub struct TlsConfig {
    /// Whether TLS is on.
    pub enabled: bool,
    /// Certificate file.
    pub cert: String,
    /// Private key file.
    pub key: String,
}

/// HTTP settings.
#[derive(Debug, Clone, Copy)]
pub struct HttpConfig {
    /// Largest request head accepted, in bytes.
    pub max_header_size: usize,
    /// Keep-alive timeout, in seconds.
    pub keep_alive_timeout: u64,
}

/// How access log lines are written.
#[derive(Debug, Clone, Copy, PartialEq, Eq, Structural)]
pub enum LogFormat {
    Combined,
    Json,
}

/// Logging settings.
#[derive(Debug, Clone, Copy)]
pub struct LogConfig {
    /// Whether requests are logged.
    pub access: bool,
    /// The line format.
    pub format: LogFormat,
}

/// The `[tls]` table as written.
#[derive(Debug, Clone)]
pub struct RawTlsConfig {
    pub enabled: Option<bool>,
    pub cert: String,
    pub key: String,
}

/// The `[http]` table as written.
#[derive(Debug, Clone, Copy)]
pub struct RawHttpConfig {
    pub max_header_size: Option<usize>,
    pub keep_alive_timeout: Option<u64>,
}

/// The `[log]` table as written.
#[derive(Debug, Clone)]
pub struct RawLogConfig {
    pub access: Option<bool>,
    pub format: Option<String>,
}

/// HTTP settings with defaults: 8192 bytes of head, 60 seconds of
/// keep-alive.
pub open spec fn http_config_of(raw: Option<RawHttpConfig>) -> HttpConfig {
    match raw {
        Some(c) => HttpConfig {
            max_header_size: match c.max_header_size {
                Some(v) => v,
                None => 8192,
            },
            keep_alive_timeout: match c.keep_alive_timeout {
                Some(v) => v,
                None => 60,
            },
        },
        None => HttpConfig { max_header_size: 8192, keep_alive_timeout: 60 },
    }
}

/// Logging settings with defaults: access logging on; JSON only when the
/// format says exactly `json`, else combined.
pub open spec fn log_config_of(raw: Option<RawLogConfig>) -> LogConfig {
    match raw {
        Some(c) => LogConfig {
            access: match c.access {
                Some(v) => v,
                None => true,
            },
            format: match c.format {
                Some(f) => if f@ == "json"@ {
                    LogFormat::Json
                } else {
                    LogFormat::Combined
                },
                None => LogFormat::Combined,
            },
        },
        None => LogConfig { access: true, format: LogFormat::Combined },
    }
}

pub open spec fn deref_opt<T>(o: Option<&T>) -> Option<T> {
    match o {
        Some(c) => Some(*c),
        None => None,
    }
}

/// HTTP settings as `http_config_of` gives them.
pub fn parse_http_config(raw: Option<&RawHttpConfig>) -> (r: HttpConfig)
    ensures
        r == http_config_of(deref_opt(raw)),
{
    match raw {
        Some(r) => HttpConfig {
            max_header_size: match r.max_header_size {
                Some(v) => v,
                None => 8192,
            },
            keep_alive_timeout: match r.keep_alive_timeout {
                Some(v) => v,
                None => 60,
            },
        },
        None => HttpConfig { max_header_size: 8192, keep_alive_timeout: 60 },
    }
}

/// Logging settings as `log_config_of` gives them.
pub fn parse_log_config(raw: Option<&RawLogConfig>) -> (r: LogConfig)
    ensures
        r == log_config_of(deref_opt(raw)),
{
    match raw {
        Some(r) => {
            let format = match &r.format {
                Some(f) => {
                    let a = chars_of(f.as_str());
                    let b = chars_of("json");
                    if chars_equal(&a, &b) {
                        LogFormat::Json
                    } else {
                        LogFormat::Combined
                    }
                },
                None => LogFormat::Combined,
            };
            LogConfig {
                access: match r.access {
                    Some(v) => v,
                    None => true,
                },
                format,
            }
        },
        None => LogConfig { access: true, format: LogFormat::Combined },
    }
}

/// Why a TLS table is refused.
#[derive(Debug, Clone)]
pub enum TlsConfigError {
    /// The certificate file does not exist.
    TlsCertNotFound(String),
    /// The key file does not exist.
    TlsKeyNotFound(String),
}

/// TLS settings: none without a table or unless enabled; the certificate
/// and key must exist (as the file system reports).
pub fn parse_tls_config(raw: Option<&RawTlsConfig>, cert_exists: bool, key_exists: bool) -> (r:
    Result<Option<TlsConfig>, TlsConfigError>)
    ensures
        match raw {
            None => r matches Ok(None),
            Some(c) => if !(c.enabled == Some(true)) {
                r matches Ok(None)
            } else if !cert_exists {
                r matches Err(TlsConfigError::TlsCertNotFound(p)) && p@ == c.cert@
            } else if !key_exists {
                r matches Err(TlsConfigError::TlsKeyNotFound(p)) && p@ == c.key@
            } else {
                r matches Ok(Some(t)) && t.enabled && t.cert@ == c.cert@ && t.key@ == c.key@
            },
        },
{
    match raw {
        None => Ok(None),
        Some(c) => {
            let enabled = match c.enabled {
                Some(v) => v,
                None => false,
            };
            if !enabled {
                return Ok(None);
            }
            if !cert_exists {
                return Err(TlsConfigError::TlsCertNotFound(c.cert.clone()));
            }
            if !key_exists {
                return Err(TlsConfigError::TlsKeyNotFound(c.key.clone()));
            }
            Ok(Some(TlsConfig { enabled: true, cert: c.cert.clone(), key: c.key.clone() }))
        },
    }
}

/// The `[server]` table as written.
#[derive(Debug, Clone)]
pub struct RawServerConfig {
    pub listen: Option<String>,
    pub workers: Option<usize>,
    pub root: Option<String>,
}

/// A configuration file as written.
#[derive(Debug, Clone)]
pub struct RawConfig {
    pub server: Option<RawServerConfig>,
    pub tls: Option<RawTlsConfig>,
    pub http: Option<RawHttpConfig>,
    pub log: Option<RawLogConfig>,
}

/// Server settings.
#[derive(Debug, Clone)]
pub struct ServerConfig {
    /// The address to listen on, as written (a valid socket address).
    pub listen: String,
    /// How many workers serve requests.
    pub workers: usize,
    /// The directory files are served from.
    pub root: String,
}

/// The whole configuration.
#[derive(Debug, Clone)]
pub struct Config {
    pub server: ServerConfig,
    pub tls: Option<TlsConfig>,
    pub http: HttpConfig,
    pub log: LogConfig,
}

/// Why a configuration is refused.
#[derive(Debug, Clone)]
pub enum ConfigError {
    /// The file could not be read.
    Io(String),
    /// The file is not valid TOML for a configuration.
    Toml(String),
    /// The listen address is not a socket address.
    InvalidAddress(String),
    /// The root directory does not exist.
    InvalidRootPath(String),
    /// TLS is on but the certificate file does not exist.
    TlsCertNotFound(String),
    /// TLS is on but the key file does not exist.
    TlsKeyNotFound(String),
    /// No workers.
    InvalidWorkerCount(usize),
}

impl ConfigError {
    /// The message of the error.
    pub fn message(&self) -> (r: String)
        ensures
            r@ == match self {
                ConfigError::Io(m) => "IO error: "@ + m@,
                ConfigError::Toml(m) => "TOML parse error: "@ + m@,
                ConfigError::InvalidAddress(a) => "Invalid listen address: "@ + a@,
                ConfigError::InvalidRootPath(p) => "Invalid root path: "@ + p@,
                ConfigError::TlsCertNotFound(p) => "TLS enabled but certificate not found: "@ + p@,
                ConfigError::TlsKeyNotFound(p) => "TLS enabled but key not found: "@ + p@,
                ConfigError::InvalidWorkerCount(n) => "Invalid worker count: "@ + decimal(*n as nat),
            },
    {
        let mut out: Vec<char> = Vec::new();
        match self {
            ConfigError::Io(m) => {
                append_str(&mut out, "IO error: ");
                append_str(&mut out, m.as_str());
            },
            ConfigError::Toml(m) => {
                append_str(&mut out, "TOML parse error: ");
                append_str(&mut out, m.as_str());
            },
            ConfigError::InvalidAddress(a) => {
                append_str(&mut out, "Invalid listen address: ");
                append_str(&mut out, a.as_str());
            },
            ConfigError::InvalidRootPath(p) => {
                append_str(&mut out, "Invalid root path: ");
                append_str(&mut out, p.as_str());
            },
            ConfigError::TlsCertNotFound(p) => {
                append_str(&mut out, "TLS enabled but certificate not found: ");
                append_str(&mut out, p.as_str());
            },
            ConfigError::TlsKeyNotFound(p) => {
                append_str(&mut out, "TLS enabled but key not found: ");
                append_str(&mut out, p.as_str());
            },
            ConfigError::InvalidWorkerCount(n) => {
                append_str(&mut out, "Invalid worker count: ");
                let d = u64_to_decimal(*n as u64);
                append_str(&mut out, d.as_str());
            },
        }
        string_from_chars(&out)
    }
}

/// What the environment reports of a configuration's values: whether the
/// listen address parses as a socket address, whether the root, the
/// certificate and the key exist, and how many workers the machine offers.
#[derive(Debug, Clone, Copy)]
pub struct ConfigFacts {
    pub listen_valid: bool,
    pub root_exists: bool,
    pub available_workers: usize,
    pub cert_exists: bool,
    pub key_exists: bool,
}

/// The address to listen on: as written, else `127.0.0.1:8080`.
pub open spec fn listen_of(raw: Option<RawServerConfig>) -> Seq<char> {
    match raw {
        Some(c) => match c.listen {
            Some(l) => l@,
            None => "127.0.0.1:8080"@,
        },
        None => "127.0.0.1:8080"@,
    }
}

/// The document root: as written, else the current directory `.`.
pub open spec fn root_of(raw: Option<RawServerConfig>) -> Seq<char> {
    match raw {
        Some(c) => match c.root {
            Some(r) => r@,
            None => "."@,
        },
        None => "."@,
    }
}

/// The worker count: as written, else what the machine offers.
pub open spec fn workers_of(raw: Option<RawServerConfig>, available_workers: usize) -> usize {
    match raw {
        Some(c) => match c.workers {
            Some(w) => w,
            None => available_workers,
        },
        None => available_workers,
    }
}

/// The address to listen on (see `listen_of`).
pub fn server_listen(raw: Option<&RawServerConfig>) -> (r: String)
    ensures
        r@ == listen_of(deref_opt(raw)),
{
    match raw {
        Some(c) => match &c.listen {
            Some(l) => l.clone(),
            None => "127.0.0.1:8080".to_owned(),
        },
        None => "127.0.0.1:8080".to_owned(),
    }
}

/// The document root (see `root_of`).
pub fn server_root(raw: Option<&RawServerConfig>) -> (r: String)
    ensures
        r@ == root_of(deref_opt(raw)),
{
    match raw {
        Some(c) => match &c.root {
            Some(r) => r.clone(),
            None => ".".to_owned(),
        },
        None => ".".to_owned(),
    }
}

/// Whether the server table is accepted.
pub open spec fn server_ok(raw: Option<RawServerConfig>, facts: ConfigFacts) -> bool {
    facts.listen_valid && facts.root_exists && workers_of(raw, facts.available_workers) != 0
}

/// Whether the TLS table turns TLS on.
pub open spec fn tls_enabled(raw: Option<RawTlsConfig>) -> bool {
    raw matches Some(c) && c.enabled == Some(true)
}

/// Server settings, with the defaults of `listen_of`, `root_of` and
/// `workers_of`: the listen address must parse, the root must exist, and
/// there must be at least one worker, checked in that order.
pub fn parse_server_config(raw: Option<&RawServerConfig>, listen_valid: bool, root_exists: bool, available_workers: usize) -> (r:
    Result<ServerConfig, ConfigError>)
    ensures
        !listen_valid ==> (r matches Err(ConfigError::InvalidAddress(a)) && a@ == listen_of(deref_opt(raw))),
        listen_valid && !root_exists ==> (r matches Err(ConfigError::InvalidRootPath(p)) && p@ == root_of(deref_opt(raw))),
        listen_valid && root_exists && workers_of(deref_opt(raw), available_workers) == 0 ==> (r matches Err(
            ConfigError::InvalidWorkerCount(n),
        ) && n == 0),
        listen_valid && root_exists && workers_of(deref_opt(raw), available_workers) != 0 ==> (r matches Ok(s)
            && s.listen@ == listen_of(deref_opt(raw)) && s.workers == workers_of(deref_opt(raw), available_workers)
            && s.root@ == root_of(deref_opt(raw))),
{
    let listen = server_listen(raw);
    if !listen_valid {
        return Err(ConfigError::InvalidAddress(listen));
    }
    let root = server_root(raw);
    if !root_exists {
        return Err(ConfigError::InvalidRootPath(root));
    }
    let workers = match raw {
        Some(c) => match c.workers {
            Some(w) => w,
            None => available_workers,
        },
        None => available_workers,
    };
    if workers == 0 {
        return Err(ConfigError::InvalidWorkerCount(workers));
    }
    Ok(ServerConfig { listen, workers, root })
}

impl Config {
    /// The configuration a file describes, given what the environment
    /// reports of its values: the server table is checked first, then the
    /// TLS table; the HTTP and log tables take their defaults.
    pub fn from_raw(raw: &RawConfig, facts: ConfigFacts) -> (r: Result<Config, ConfigError>)
        ensures
            !facts.listen_valid ==> (r matches Err(ConfigError::InvalidAddress(a)) && a@ == listen_of(raw.server)),
            facts.listen_valid && !facts.root_exists ==> (r matches Err(ConfigError::InvalidRootPath(p)) && p@
                == root_of(raw.server)),
            facts.listen_valid && facts.root_exists && workers_of(raw.server, facts.available_workers) == 0
                ==> (r matches Err(ConfigError::InvalidWorkerCount(n)) && n == 0),
            server_ok(raw.server, facts) && tls_enabled(raw.tls) && !facts.cert_exists ==> (r matches Err(
                ConfigError::TlsCertNotFound(p),
            ) && p@ == raw.tls->0.cert@),
            server_ok(raw.server, facts) && tls_enabled(raw.tls) && facts.cert_exists && !facts.key_exists
                ==> (r matches Err(ConfigError::TlsKeyNotFound(p)) && p@ == raw.tls->0.key@),
            server_ok(raw.server, facts) && (!tls_enabled(raw.tls) || facts.cert_exists && facts.key_exists)
                ==> (r matches Ok(c) && c.server.listen@ == listen_of(raw.server) && c.server.workers == workers_of(
                raw.server,
                facts.available_workers,
            ) && c.server.root@ == root_of(raw.server) && (tls_enabled(raw.tls) ==> (c.tls matches Some(t)
                && t.enabled && t.cert@ == raw.tls->0.cert@ && t.key@ == raw.tls->0.key@)) && (!tls_enabled(
                raw.tls,
            ) ==> c.tls is None) && c.http == http_config_of(raw.http) && c.log == log_config_of(raw.log)),
    {
        let server = match parse_server_config(
            raw.server.as_ref(),
            facts.listen_valid,
            facts.root_exists,
            facts.available_workers,
        ) {
            Ok(s) => s,
            Err(e) => return Err(e),
        };
        let tls = match parse_tls_config(raw.tls.as_ref(), facts.cert_exists, facts.key_exists) {
            Ok(t) => t,
            Err(TlsConfigError::TlsCertNotFound(p)) => return Err(ConfigError::TlsCertNotFound(p)),
            Err(TlsConfigError::TlsKeyNotFound(p)) => return Err(ConfigError::TlsKeyNotFound(p)),
        };
        let http = parse_http_config(raw.http.as_ref());
        let log = parse_log_config(raw.log.as_ref());
        Ok(Config { server, tls, http, log })
    }
}

/// How an upstream spreads requests over its servers.
#[derive(Debug, Clone, Copy, PartialEq, Eq, Structural)]
pub enum LoadBalanceType {
    RoundRobin,
    WeightedRoundRobin,
    IpHash,
    LeastConn,
}

/// One server of an upstream.
#[derive(Debug, Clone)]
pub struct UpstreamServer {
    /// Its address, with or without a scheme.
    pub server: String,
    /// Its share of the requests.
    pub weight: u32,
}

/// The weight of a server that names none.
pub fn default_weight() -> (r: u32)
    ensures
        r == 1,
{
    1
}

/// A named group of servers.
#[derive(Debug, Clone)]
pub struct Upstream {
    pub name: String,
    pub server: Vec<UpstreamServer>,
    pub method: LoadBalanceType,
}

} // verus!
