[package]
name = "vectorizer"
version = "0.1.0"
edition = "2021"
publish = false

[dependencies]
anyhow = "*"
chrono = "*"
clap = "=4.6.7"
config = "=0.13.4"
flume = "*"
ignore = "=0.4.33"
log = "*"
lazy_static = "*"
qdrant-client = "=1.19.0"
rust-bert = "*"
serde = { version = "1", features = ["derive"] }
serde_json = "1"
simplelog = "=0.11.2"
tch = "*"
thiserror = "*"
tokio = { version = "1", features = ["macros", "rt-multi-thread", "sync"] }
uuid = { version = "=1.27.0", features = ["v5"] }
walkdir = "*"
