//! The blueprint: the configuration, checked and with its resolvers in place.
pub mod auth;
pub mod operators;
pub mod types;
