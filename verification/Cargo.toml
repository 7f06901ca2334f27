[package]
name = "file_archiver"
version = "0.1.0"
edition = "2021"
publish = false

[dependencies]
md5 = "*"
chrono = "*"
walkdir = "*"
anyhow = "*"
serde = { version = "*", features = ["derive"] }
toml = "*"

[dev-dependencies]
tempfile = "*"
