[package]
name = "macro_dashboard"
version = "0.1.0"
edition = "2021"
publish = false

[dependencies]
anyhow = "*"
chrono = "=0.4.45"
chrono-tz = "=0.10.4"
csv = "=1.4.0"
dotenv = "*"
env_logger = "*"
jsonwebtoken = "=11.1.0"
log = "*"
regex = "*"
reqwest = { version = "=0.13.5", default-features = false, features = ["json"] }
scraper = "=0.27.0"
serde = { version = "*", features = ["derive"] }
serde_json = "*"
tokio = { version = "*", features = ["full"] }
tokio-cron-scheduler = "=0.15.1"
warp = { version = "=0.4.3", features = ["server"] }
