[package]
name = "almanac"
version = "0.1.0"
edition = "2021"
publish = false

[dependencies]
sha2 = "=0.10.9"
hex = "=0.4.3"
serde = { version = "=1.0.229", features = ["derive"] }
serde_json = "=1.0.154"
serde_yaml = "=0.9.34"
strsim = "=0.11.1"
time = { version = "=0.3.55", features = ["formatting"] }
tokio = { version = "=1.54.1", features = ["rt-multi-thread", "macros", "sync", "time", "net", "signal"] }
axum = "=0.8.9"
anyhow = "=1.0.104"
thiserror = "=2.0.21"
tracing = "=0.1.44"
tracing-subscriber = { version = "=0.3.23", features = ["env-filter", "json"] }
walkdir = "=2.5.0"
tower-http = { version = "=0.6.11", features = ["cors", "compression-gzip", "limit"] }
clap = { version = "=4.6.7", features = ["derive"] }
async-trait = "=0.1.92"
reqwest = { version = "=0.12.28", default-features = false, features = ["rustls-tls"] }
redis = { version = "=0.27.6", features = ["tokio-comp", "connection-manager"] }
dotenvy = "=0.15.7"
prometheus = { version = "=0.13.4", default-features = false }
scraper = "*"
