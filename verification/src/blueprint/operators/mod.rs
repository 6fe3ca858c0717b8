//! What turns parts of the configuration into resolvers.
pub mod call;
