//! The pure parts of the Lua scripting interface: query strings, request
//! state, escaping, digests and the request-line helpers.

pub mod constants;
pub mod utils;
pub mod structures;
pub mod handler;
pub mod userdata;
