[package]
name = "superhq"
version = "0.1.0"
edition = "2021"
publish = false

[dependencies]
similar = "=2.7.0"
base64 = "=0.22.1"
hmac = "=0.12.1"
sha2 = "=0.10.9"
serde = { version = "=1.0.229", features = ["derive"] }
serde_json = "=1.0.154"
thiserror = "=2.0.21"
tokio = { version = "=1.54.1", features = ["sync", "time", "rt", "macros", "net", "io-util"] }
flume = "=0.11.1"
tracing = "=0.1.44"
parking_lot = "=0.12.5"
alacritty_terminal = "=0.26.0"
qrcode = "=0.14.1"
tree-sitter = "=0.27.1"
tree-sitter-rust = "=0.24.2"
tungstenite = "0.26"
tokio-tungstenite = "0.26"
hyper = { version = "1", features = ["server", "http1"] }
hyper-util = { version = "0.1", features = ["tokio"] }
http-body-util = "0.1"
bytes = "1"
anyhow = "1"
futures-util = "0.3"
reqwest = { version = "0.12", default-features = false, features = ["native-tls", "stream"] }
