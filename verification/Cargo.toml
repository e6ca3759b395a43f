[package]
name = "grimoire"
version = "0.1.0"
edition = "2021"
publish = false

[dependencies]
anyhow = "1"
base64ct = { version = "=1.8.3", features = ["alloc"] }
clap = { version = "4", features = ["derive", "env"] }
cookie = "=0.18.2"
futures = "0.3"
hickory-resolver = "=0.24.4"
log = "0.4"
reqwest = { version = "=0.12.28", default-features = false, features = ["rustls-tls"] }
serde_json = "=1.0.154"
sqlx = { version = "=0.8.6", default-features = false, features = ["postgres", "runtime-tokio", "ipnetwork", "json", "migrate"] }
thiserror = "1"
tokio = { version = "1", features = ["full"] }
tokio-util = { version = "0.7", features = ["codec"] }
tracing = "0.1"
tracing-subscriber = { version = "0.3", features = ["env-filter"] }

[dev-dependencies]
itertools = "0.13"
regex = "1"
