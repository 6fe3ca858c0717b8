//! The configuration, and where it comes from.
pub mod types;
pub mod descriptor;
pub mod from_proto;
pub mod generation_laws;
pub mod collisions;
pub mod reader;
pub mod reader_context;
