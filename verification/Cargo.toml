[package]
name = "jtail"
version = "0.1.0"
edition = "2021"
publish = false

[dependencies]
anyhow = "1"
clap = { version = "4", features = ["derive"] }
jiff = "0.2"
owo-colors = "4"
regex = "1"
serde_json = "1"
tokio = { version = "1", features = ["full"] }
