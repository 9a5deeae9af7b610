[package]
name = "slate"
version = "0.1.0"
edition = "2021"
publish = false

[dependencies]
dirs = "*"
walkdir = "2"
serde = { version = "1", features = ["derive"] }
