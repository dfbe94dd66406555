[package]
name = "parano1d_permanode"
version = "0.2.0"
edition = "2021"
publish = false

[dependencies]
hex = "0.4"
num-bigint = "0.4"
anyhow = "1"
axum = "0.8"
chrono = "0.4"
clap = { version = "4", features = ["derive"] }
env_logger = "0.11"
log = "0.4"
rusqlite = { version = "0.32", features = ["bundled"] }
serde = { version = "1", features = ["derive"] }
serde_json = "1"
tokio = { version = "1", features = ["rt-multi-thread", "macros", "net"] }
toml = "0.8"
tower-http = { version = "0.6", features = ["cors", "fs"] }
ureq = { version = "3", default-features = false, features = ["json"] }
include_dir = "0.7"
mime_guess = "2"
