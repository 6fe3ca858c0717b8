[package]
name = "tailcall"
version = "0.1.0"
edition = "2021"
publish = false

[dependencies]
anyhow = "1"
async-graphql = { version = "=7.2.1", default-features = false, features = ["dataloader"] }
async-graphql-value = "=7.2.1"
async-std = { version = "1", features = ["unstable"] }
async-trait = "0.1"
base64 = "=0.22.1"
convert_case = "=0.6.0"
hyper = { version = "=0.14.32", features = ["full"] }
inquire = "0.7"
jwtk = "=0.3.0"
log = "0.4"
prometheus = { version = "=0.13.4", features = ["protobuf"] }
prost = "=0.12.6"
prost-reflect = { version = "=0.13.1", features = ["serde"] }
protox-parse = "=0.6.1"
reqwest = { version = "=0.11.27", default-features = false }
serde = { version = "1", features = ["derive"] }
serde_json = "=1.0.154"
thiserror = "1"
tokio = { version = "1", features = ["full"] }
tracing = "0.1"
url = "=2.5.8"
worker = "=0.8.7"
