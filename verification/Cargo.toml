[package]
name = "bastion"
version = "0.1.0"
edition = "2021"
publish = false

[dependencies]
dashmap = "=6.2.1"
xxhash-rust = { version = "=0.8.19", features = ["xxh64"] }
rand = "=0.8.8"
ipnet = "=2.12.2"
hdrhistogram = { version = "=7.6.0", default-features = false }
smallvec = "=1.16.4"
toml = "=0.8.23"
parking_lot = "=0.12.5"
bytes = "=1.12.1"
tokio = { version = "=1.54.1", features = ["rt-multi-thread", "macros", "net", "time", "sync", "signal"] }
hyper = { version = "=1.12.0", features = ["http1", "http2", "server", "client"] }
hyper-util = { version = "=0.1.21", features = ["tokio", "client-legacy", "server-auto", "http1", "http2"] }
http-body-util = "=0.1.5"
axum = { version = "=0.7.9", features = ["ws"] }
async-trait = "=0.1.92"
serde = { version = "=1.0.229", features = ["derive"] }
serde_json = "=1.0.154"
jsonwebtoken = "=9.3.1"
uuid = { version = "=1.29.0", features = ["v4"] }
tracing = "=0.1.44"
tracing-subscriber = "=0.3.23"
anyhow = "=1.0.104"
thiserror = "=1.0.69"
notify = "=6.1.1"
arc-swap = "=1.9.3"
futures = "=0.3.34"
tower-http = { version = "=0.5.2", features = ["fs"] }
