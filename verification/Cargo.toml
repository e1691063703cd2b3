[package]
name = "random_image_server"
version = "0.1.0"
edition = "2021"
publish = false

[dependencies]
anyhow = "1"
http-body-util = "0.1"
hyper = { version = "1", features = ["server", "http1", "http2"] }
hyper-util = { version = "0.1", features = ["server", "server-auto", "server-graceful", "tokio"] }
md5 = "0.7"
mime_guess = "2"
rand = "0.9"
reqwest = { version = "0.12", default-features = false }
tempfile = "3"
tokio = { version = "1", features = ["rt-multi-thread", "macros", "net", "sync", "time", "signal"] }
tracing = "0.1"
url = "2"
uuid = { version = "1", features = ["v4"] }
walkdir = "2"
