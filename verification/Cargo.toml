[package]
name = "soziopolis_lingq_tool"
version = "0.1.0"
edition = "2021"
publish = false

[dependencies]
regex = "=1.13.1"
chrono = "=0.4.45"
scraper = "=0.29.0"
anyhow = "=1.0.104"
dirs = "=7.0.0"
reqwest = { version = "=0.12.28", default-features = false, features = ["blocking"] }
serde = { version = "1", features = ["derive"] }
serde_json = "1"
