[package]
name = "dodo_zh"
version = "0.1.0"
edition = "2021"
publish = false

[dependencies]
unicode-normalization = "=0.1.26"
serde = { version = "=1.0.229", features = ["derive"] }
serde_json = "=1.0.154"
csv = "=1.4.0"
clap = { version = "=4.6.7", features = ["derive"] }
anyhow = "=1.0.104"
tokio = { version = "=1.54.1", features = ["macros", "rt-multi-thread"] }
reqwest = { version = "=0.13.5", features = ["stream"] }
futures-util = "=0.3.34"
scraper = "=0.29.0"
indicatif = "=0.18.6"
tempfile = "=3.27.0"
