[package]
name = "balances_watcher"
version = "0.1.0"
edition = "2021"
publish = false

[dependencies]
alloy = { version = "=1.8.3", default-features = false, features = ["sol-types"] }
anyhow = "1"
axum = { version = "0.8", default-features = false, features = ["http1", "json", "query", "tokio"] }
backon = { version = "1", default-features = false, features = ["std", "tokio-sleep"] }
clap = { version = "4", default-features = false, features = ["std", "derive", "env", "help", "usage", "error-context"] }
futures = { version = "0.3", default-features = false, features = ["std", "async-await"] }
metrics = "0.24"
metrics-exporter-prometheus = { version = "0.17", default-features = false }
moka = { version = "0.12", default-features = false, features = ["future"] }
reqwest = { version = "=0.12.28", default-features = false, features = ["json", "rustls-tls"] }
rustls = { version = "0.23", default-features = false, features = ["ring", "std"] }
serde = { version = "1", features = ["derive"] }
serde_json = "1"
thiserror = "2"
tokio = { version = "1", features = ["macros", "rt-multi-thread", "net", "signal", "sync", "time"] }
tokio-stream = { version = "0.1", features = ["sync"] }
tokio-util = { version = "0.7", default-features = false, features = ["rt"] }
tracing = { version = "0.1", default-features = false, features = ["std"] }
tracing-subscriber = { version = "0.3", default-features = false, features = ["fmt", "std"] }
url = "=2.5.8"
utoipa = { version = "5", default-features = false, features = ["macros"] }
uuid = { version = "=1.29.0", default-features = false, features = ["std", "serde"] }
utoipa-swagger-ui = { version = "9", default-features = false, features = ["axum", "vendored"] }
