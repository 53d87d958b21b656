[package]
name = "oxidized_git"
version = "0.1.0"
edition = "2021"
publish = false

[dependencies]
html-escape = "0.2"
serde = { version = "1", features = ["derive"] }
serde_json = "1"
serde_with = "*"
anyhow = "1"
chrono = "0.4"
directories = "*"
git2 = { version = "*", default-features = false }
keytar = "*"
