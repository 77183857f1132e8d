[package]
name = "watchlist"
version = "0.1.0"
edition = "2021"
publish = false

[dependencies]
scraper = "=0.27.0"
reqwest = { version = "=0.13.5", default-features = false }
tokio = { version = "=1.53.2", features = ["rt-multi-thread", "macros"] }
serde = { version = "=1.0.229", features = ["derive"] }
serde_json = "=1.0.151"
clap = { version = "=4.6.7", features = ["derive"] }
chrono = "=0.4.45"
ibapi = "=5.0.0"
futures = "=0.3.34"
