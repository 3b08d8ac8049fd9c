[package]
name = "axum-reverse-proxy"
version = "2.2.0"
edition = "2021"
publish = false

[dependencies]
axum = { version = "=0.8.9", features = ["ws"] }
base64 = "=0.22.1"
bollard = "=0.18.1"
bytes = "=1.12.1"
futures-util = "=0.3.34"
http = "=1.5.0"
http-body-util = "=0.1.5"
hyper = "=1.12.0"
hyper-rustls = { version = "=0.27.10", default-features = false, features = ["http1", "http2", "ring", "tls12", "webpki-roots"] }
hyper-util = { version = "=0.1.21", features = ["client", "client-legacy", "http1", "http2", "tokio"] }
percent-encoding = "=2.3.2"
rand = "=0.9.5"
sha1 = "=0.10.7"
tokio = { version = "=1.54.1", features = ["macros", "net", "rt-multi-thread", "sync", "time"] }
tokio-tungstenite = "=0.26.2"
tower = { version = "=0.5.3", features = ["discover", "util"] }
tracing = "=0.1.44"
url = "=2.5.8"
