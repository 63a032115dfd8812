[package]
name = "scoutly"
version = "0.1.0"
edition = "2021"
publish = false

[dependencies]
anyhow = "*"
chrono = "*"
clap = { version = "*", features = ["derive"] }
colored = "*"
dirs = "*"
futures = "*"
governor = "*"
indicatif = "*"
reqwest = { version = "*", features = ["gzip", "brotli", "deflate"] }
scraper = "*"
serde = { version = "*", features = ["derive"] }
serde_json = "*"
serde_yaml = "*"
tokio = { version = "*", features = ["macros", "rt-multi-thread"] }
toml = "*"
url = "*"
