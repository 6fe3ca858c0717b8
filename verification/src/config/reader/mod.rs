//! What is read over the network while a configuration is put together.
pub mod grpc_fetch;
