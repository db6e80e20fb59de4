//! Candy: the request-handling core of a static-file web server.

pub mod cli;
pub mod consts;
pub mod text;
pub mod unicode;
pub mod compress;
pub mod router;
pub mod worker;
pub mod middlewares;
pub mod logging;
pub mod utils;
pub mod config;
pub mod tls;
pub mod service;
pub mod frame;
pub mod lua_engine;
pub mod web;

pub mod http2;
