//! A static resource web server: request parsing, routing, response
//! assembly and proxy request planning, with their contracts.
pub mod text;
pub mod strmap;
pub mod outside;
pub mod global;
pub mod config;
pub mod http;
pub mod utils;
pub mod template;
pub mod gzip;
pub mod file_safe;
pub mod request;
pub mod proxy;
pub mod print;
pub mod ssl;
pub mod base;
