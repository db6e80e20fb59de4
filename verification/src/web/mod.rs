//! HTTP/1.x request parsing and response building.

pub mod domain;
pub mod error;
pub mod header_map;
pub mod parser;
pub mod response;
pub mod lua;
pub mod proxy;
pub mod reverse_proxy;
pub mod route_serve;
pub mod serve;
