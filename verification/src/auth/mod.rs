//! Authentication of incoming requests.
pub mod base;
pub mod jwt;
