[package]
name = "vapor_daemon"
version = "0.1.0"
edition = "2021"
publish = false

[dependencies]
globset = "0.4"
md-5 = "0.10"
sha2 = "0.10"
serde = { version = "1", features = ["derive"] }
serde_json = "1"
unicode-normalization = "0.1"

[dev-dependencies]
tempfile = "3"
