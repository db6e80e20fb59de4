//! Command-line options.

use vstd::prelude::*;

verus! {

/// The configuration file used when none is named.
pub const DEFAULT_CONFIG_PATH: &'static str = "./config.toml";

/// Options of the server's command line.
#[derive(Debug, Clone)]
pub struct Cli {
    /// The configuration file (`-c`, `--config`).
    pub config: String,
}

} // verus!
