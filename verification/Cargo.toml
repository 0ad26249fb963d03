[package]
name = "bench_im"
version = "0.1.0"
edition = "2021"
publish = false

[dependencies]
ipnet = "2"
ip2region = "*"
base64 = "0.22"
rand = "0.8"
regex = "1"
chrono = "0.4"
serde = { version = "1", features = ["derive"] }
serde_json = "1"
validator = { version = "*", features = ["derive"] }
thiserror = "2"
anyhow = "1"
async-trait = "0.1"
axum = "0.8"
axum-extra = { version = "0.10", features = ["typed-header"] }
axum-valid = "*"
tokio = { version = "1", features = ["full"] }
askama = "*"
sea-orm = { version = "1", default-features = false, features = ["sqlx-sqlite", "runtime-tokio-rustls", "macros"] }
sea-orm-migration = { version = "1", default-features = false, features = ["sqlx-sqlite", "runtime-tokio-rustls"] }
tracing = "0.1"
tracing-subscriber = { version = "0.3", features = ["env-filter"] }
reqwest = { version = "0.12", default-features = false, features = ["json", "rustls-tls"] }
surge-ping = "*"
log = "0.4"
env_logger = "0.11"
getopts = "0.2"
dotenvy = "0.15"
mime_guess = "2"
rust-embed = "8"
hex = "0.4"
