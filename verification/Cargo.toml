[package]
name = "wingman"
version = "0.1.0"
edition = "2021"
publish = false

[dependencies]
anyhow = "=1.0.104"
axum = "=0.8.9"
chrono = "=0.4.45"
clap = { version = "=4.6.7", features = ["derive"] }
comrak = { version = "=0.59.0", default-features = false }
futures = "=0.3.34"
handlebars = "=6.4.4"
json = "=0.12.4"
lightningcss = { version = "=1.0.0-alpha.72", default-features = false }
notify = "=8.2.1"
pulldown-cmark = { version = "*", default-features = false, features = ["html"] }
nu-ansi-term = "=0.50.3"
serde = { version = "=1.0.229", features = ["derive"] }
serde_json = "=1.0.154"
serde_yaml = "=0.9.34"
thiserror = "=2.0.21"
tokio = { version = "=1.54.1", features = ["full"] }
tower-http = { version = "=0.6.11", features = ["fs", "trace"] }
walkdir = "=2.5.0"
