[package]
name = "convo_search"
version = "0.1.0"
edition = "2021"
publish = false

[dependencies]
serde_json = "*"
jiff = "*"
names = "*"
anyhow = "*"
clap = { version = "*", features = ["derive"] }
colored = "*"
dirs = "*"
