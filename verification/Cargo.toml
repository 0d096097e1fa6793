[package]
name = "rolypoly"
version = "0.1.0"
edition = "2021"
publish = false

[dependencies]
zip = { version = "=8.6.0", default-features = false, features = ["deflate"] }
sha2 = "=0.10.9"
tokio = { version = "=1.53.2", features = ["sync", "rt-multi-thread", "time"] }
clap = { version = "=4.6.7", features = ["derive"] }
walkdir = "=2.5.0"
serde = { version = "=1.0.229", features = ["derive"] }
serde_json = "=1.0.151"
anyhow = "=1.0.104"
rand = "=0.10.3"
indicatif = "=0.18.6"
