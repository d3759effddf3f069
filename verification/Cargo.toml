[package]
name = "url_launcher"
version = "0.1.0"
edition = "2021"
publish = false

[dependencies]
anyhow = "*"
clap = { version = "*", features = ["derive"] }
log = { version = "*", features = ["kv"] }
open = "*"
structured-logger = "*"
