//! Authentication by JSON web tokens.
pub mod validation;
