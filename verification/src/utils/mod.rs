//! Map and byte helpers.
pub mod tools;
