[package]
name = "inspect_commits"
version = "0.1.0"
edition = "2021"
publish = false

[dependencies]
regex = "1"
colored = "2"
home = "0.5"
clap = "3.2"
serde = { version = "1", features = ["derive"] }
serde_json = "1"
