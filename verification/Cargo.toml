[package]
name = "unit_compose"
version = "0.1.0"
edition = "2021"
publish = false

[dependencies]
saphyr = "=0.3.3"
saphyr-parser = "=0.3.3"
serde = { version = "=1.0.229", features = ["derive"] }
serde_json = "=1.0.154"
serde_ignored = "=0.1.14"
re_sdk = { version = "0.24", default-features = false }
re_types = { version = "0.24", default-features = false }
