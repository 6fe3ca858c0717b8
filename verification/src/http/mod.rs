//! HTTP: headers, batched upstream requests and the handling of incoming ones.
pub mod headers;
pub mod request_context;
pub mod data_loader_request;
pub mod graphql_data_loader;
pub mod cors;
pub mod request_handler;
pub mod response_map;
