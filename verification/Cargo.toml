[package]
name = "shrubbery"
version = "0.1.0"
edition = "2021"
publish = false

[dependencies]
base64 = "0.21"
bytes = "1"
color-eyre = "0.6"
eyre = "0.6"
futures = "0.3"
http = "1"
httparse = "1"
pin-project = "1"
rand = "0.8"
rocksdb = "0.21"
serde = { version = "1", features = ["derive"] }
serde_json = "1"
sha1 = "0.10"
structopt = "0.3"
tokio = { version = "1", features = ["full"] }
tokio-native-tls = "0.3"
tokio-tungstenite = "0.21"
tokio-util = { version = "0.7", features = ["codec"] }
tracing = "0.1"
tracing-subscriber = { version = "0.3", features = ["env-filter"] }
ulid = "1"
