[package]
name = "gittre"
version = "0.1.0"
edition = "2021"
publish = false

[dependencies]
anyhow = "1"
arboard = { version = "3", default-features = false }
base64 = "0.22"
clap = { version = "4", features = ["derive"] }
git2 = { version = "*", default-features = false }
ratatui = "*"
serde = { version = "1", features = ["derive"] }
serde_json = "1"
syntect = { version = "5", default-features = false, features = ["default-fancy"] }
unicode-width = "0.2"
