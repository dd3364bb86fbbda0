[package]
name = "scan2blob"
version = "0.1.0"
edition = "2021"
publish = false

[dependencies]
azure_core = "*"
azure_storage = "*"
azure_storage_blobs = "*"
base64 = "=0.23.1"
bytes = "*"
clap = { version = "*", default-features = false, features = ["std", "help", "usage", "error-context"] }
dav-server = "*"
futures = "*"
hyper = { version = "*", features = ["http1", "http2", "server"] }
hyper-util = { version = "*", features = ["http1", "http2", "server", "server-auto", "tokio"] }
jiff = "=0.2.38"
md-5 = "=0.11.0"
rustls = "*"
rustls-pemfile = "*"
rustls-pki-types = "*"
serde = { version = "*", features = ["derive"] }
serde_json = "*"
serde_urlencoded = "*"
sha-crypt = "=0.5.0"
tokio = { version = "*", features = ["rt", "sync", "net", "time", "signal", "io-util", "macros"] }
tokio-rustls = "*"
