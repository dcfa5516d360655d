//! Handling one connection's request.
pub mod request;
pub mod listen;
