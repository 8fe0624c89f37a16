[package]
name = "reqvire"
version = "0.1.0"
edition = "2021"
publish = false

[dependencies]
globset = "0.4"
regex = "1"
serde = { version = "1", features = ["derive"] }
serde_json = "1"
log = "0.4"
