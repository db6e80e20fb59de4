//! Built-in configuration defaults.

use vstd::prelude::*;

verus! {

/// The server's name.
pub const NAME: &'static str = "candy";

/// The server's version.
pub const VERSION: &'static str = "0.1.0";

/// Default index file served for a directory.
pub const HOST_INDEX_FILE: &'static str = "index.html";

/// Default HTTP keep-alive timeout, in seconds.
pub const TIMEOUT_EFAULT: u16 = 75;

/// Default upstream connect timeout, in seconds.
pub const UPSTREAM_TIMEOUT: u16 = 5;

/// Default log level.
pub const DEFAULT_LOG_LEVEL: &'static str = "info";

/// Default log folder.
pub const DEFAULT_LOG_FOLDER: &'static str = "./logs";

/// The default list of index files: just `index.html`.
pub fn host_index() -> (r: Vec<String>)
    ensures
        r@.len() == 1,
        r@[0]@ == HOST_INDEX_FILE@,
{
    let mut v: Vec<String> = Vec::new();
    v.push(HOST_INDEX_FILE.to_owned());
    v
}

/// The default HTTP keep-alive timeout (75 seconds).
pub fn timeout_default() -> (r: u16)
    ensures
        r == 75,
{
    TIMEOUT_EFAULT
}

/// The default upstream timeout (5 seconds).
pub fn upstream_timeout_default() -> (r: u16)
    ensures
        r == 5,
{
    UPSTREAM_TIMEOUT
}

/// Boolean options default to off.
pub fn default_disabled() -> (r: bool)
    ensures
        !r,
{
    false
}

/// The default log level, `info`.
pub fn default_log_level() -> (r: String)
    ensures
        r@ == DEFAULT_LOG_LEVEL@,
{
    DEFAULT_LOG_LEVEL.to_owned()
}

/// The default log folder, `./logs`.
pub fn default_log_folder() -> (r: String)
    ensures
        r@ == DEFAULT_LOG_FOLDER@,
{
    DEFAULT_LOG_FOLDER.to_owned()
}

/// Compression is on by default.
pub fn default_compression_enabled() -> (r: bool)
    ensures
        r,
{
    true
}

/// The default compression level, 6.
pub fn default_compression_level() -> (r: u8)
    ensures
        r == 6,
{
    6
}

} // verus!
