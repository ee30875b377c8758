[package]
name = "fuma-rs"
version = "0.1.0"
edition = "2021"
publish = false

[dependencies]
base64 = "0.22"
chrono = { version = "0.4", default-features = false, features = ["std"] }
futures = "0.3"
pulldown-cmark = "*"
pulldown-cmark-to-cmark = "*"
reqwest = { version = "*", features = ["json"] }
serde = { version = "1", features = ["derive"] }
serde_json = "1"
serde_yaml = "0.9"
thiserror = "*"
tokio = { version = "1", features = ["full"] }
toml = "*"
urlencoding = "2"
walkdir = "2"

[dev-dependencies]
regex = "1"
