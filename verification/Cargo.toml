[package]
name = "unity_scope"
version = "0.1.0"
edition = "2021"
publish = false

[dependencies]
serde = { version = "1", features = ["derive"] }
serde_yaml_ng = "*"
walkdir = "2"
thiserror = "*"
