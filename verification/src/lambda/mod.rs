//! Resolver expressions: what they are, how they run, and what they run against.
pub mod evaluation_context;
pub mod evaluation_laws;
pub mod resolver_context;
pub mod expression;
pub mod execution;
pub mod selection;
pub mod error;
