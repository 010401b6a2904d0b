[package]
name = "blog"
version = "0.1.0"
edition = "2021"
publish = false

[dependencies]
markdown = "1"
serde = { version = "1", features = ["derive"] }
serde_json = { version = "1", features = ["raw_value"] }
serde_yaml = "0.9"
sha2 = "0.10"
hmac = "0.12"
clap = { version = "4", features = ["derive"] }
ureq = { version = "3", features = ["json"] }
