[package]
name = "modd"
version = "0.1.0"
edition = "2021"
publish = false

[dependencies]
zip = "=8.6.0"
flate2 = "=1.1.10"
serde = { version = "=1.0.229", features = ["derive"] }
serde_json = "=1.0.151"
clap = { version = "=4.6.7", features = ["derive"] }
anyhow = "=1.0.104"
