[package]
name = "goblin_scout"
version = "0.1.0"
edition = "2021"
publish = false

[dependencies]
uuid = { version = "*", features = ["v4"] }
serde_json = "*"
serde = { version = "*", features = ["derive"] }
git2 = "*"
walkdir = "*"
chrono = "*"
thiserror = "*"
