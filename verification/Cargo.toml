[package]
name = "pouch"
version = "2.1.0"
edition = "2021"
publish = false

[dependencies]
chrono = "0.4"
http = "1"
http-body-util = "0.1"
hudsucker = { version = "0.24", default-features = false, features = ["decoder", "http2", "rcgen-ca"] }
hyper-tls = { version = "0.6", features = ["alpn"] }
hyper-util = { version = "0.1", features = ["client-legacy", "http1", "http2", "tokio"] }
native-tls = { version = "0.2", features = ["alpn"] }
percent-encoding = "2"
rcgen = "0.14"
regex = "1"
reqwest = { version = "0.12", default-features = false, features = ["brotli", "cookies", "deflate", "gzip", "json", "rustls-tls"] }
rusqlite = { version = "0.32", features = ["bundled"] }
semver = "1"
serde = { version = "1", features = ["derive"] }
serde_json = "1"
tempfile = "3"
thiserror = "2"
tokio = { version = "1", features = ["full"] }
tokio-native-tls = "0.3"
toml = "0.8"
tracing = "0.1"
tracing-subscriber = { version = "0.3", features = ["chrono", "env-filter"] }
url = "2"
