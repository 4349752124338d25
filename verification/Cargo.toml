[package]
name = "kaizen-core"
version = "0.1.0"
edition = "2021"
publish = false

[dependencies]
anyhow = "1"
dirs = "*"
indexmap = { version = "2", features = ["serde"] }
os_info = "3"
serde = { version = "1", features = ["derive"] }
serde_json = "1"
shellexpand = "3"
steel-core = "*"
thiserror = "*"
toml = "0.8"
which = "*"
