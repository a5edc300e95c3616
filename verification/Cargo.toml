[package]
name = "spm"
version = "0.1.0"
edition = "2021"
publish = false

[dependencies]
git2 = "*"
chrono = "*"
clap = { version = "*", features = ["derive"] }
inquire = "*"
fuzzy-matcher = "*"
dirs = "*"
anyhow = "*"
serde = { version = "*", features = ["derive"] }
serde_json = "*"
