[package]
name = "mdev"
version = "1.0.0"
edition = "2021"
publish = false

[dependencies]
clap = { version = "4", features = ["derive"] }
clap_complete = "4"
colored = "2"
dialoguer = "0.11"
dirs = "5"
indicatif = "0.17"
regex = "1"
serde_json = "1"
serde_yaml = "0.9"

[dev-dependencies]
tempfile = "3"
