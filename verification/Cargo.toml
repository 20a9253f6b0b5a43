[package]
name = "llm_router_gateway_api"
version = "0.1.0"
edition = "2021"
publish = false

[dependencies]
base64 = "0.22"
bytes = "1"
chrono = "0.4"
dirs = "5"
env_logger = "0.11"
futures = "0.3"
governor = "0.6"
http = "1"
http-body-util = "0.1"
hyper = "1"
lazy_static = "1"
log = "0.4"
prometheus = "0.13"
rand = "0.8"
reqwest = { version = "0.12", default-features = false, features = ["brotli", "deflate", "gzip"] }
serde = { version = "1", features = ["derive"] }
serde_json = "1"
serde_yaml = "0.9"
sha2 = "0.10"
thiserror = "1"
tokio = { version = "1", features = ["macros", "rt-multi-thread", "sync", "time"] }
tower = "0.4"
