[package]
name = "vlazba"
version = "0.1.0"
edition = "2021"
publish = false

[dependencies]
anyhow = "*"
clap = "*"
regex = "*"
serde_json = "*"
