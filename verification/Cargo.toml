[package]
name = "deeplocal"
version = "0.1.0"
edition = "2021"
publish = false

[dependencies]
anyhow = "1"
async-trait = "0.1"
axum = "0.8"
chrono = { version = "0.4", features = ["serde"] }
clap = { version = "4", features = ["derive"] }
futures = "0.3"
num_cpus = "1"
reqwest = { version = "0.12", default-features = false, features = ["json", "stream", "rustls-tls"] }
rusqlite = { version = "*", features = ["bundled"] }
serde = { version = "1", features = ["derive"] }
serde_json = "1"
sysinfo = "*"
tokio = { version = "1", features = ["full"] }
tokio-stream = "0.1"
toml = "*"
tower-http = { version = "*", features = ["cors"] }
tracing-subscriber = "0.3"
urlencoding = "2"
uuid = { version = "1", features = ["v4", "serde"] }
