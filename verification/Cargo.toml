[package]
name = "yerd-proxy"
version = "0.1.0"
edition = "2021"
publish = false

[dependencies]
bytes = "1"
http = "1"
http-body = "1"
http-body-util = "0.1"
hyper = { version = "1", features = ["server", "http1"] }
hyper-util = { version = "0.1", features = ["tokio"] }
tokio = { version = "1", features = ["net", "io-util", "sync", "rt", "macros", "fs"] }
tokio-rustls = { version = "0.26", default-features = false }
tracing = { version = "0.1", default-features = false, features = ["std"] }
