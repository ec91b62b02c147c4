[package]
name = "openscreen"
version = "0.1.0"
edition = "2021"
publish = false

[dependencies]
dirs = "*"
image = { version = "*", default-features = false }
serde = { version = "*", features = ["derive"] }
serde_json = "*"
uuid = { version = "*", features = ["v4"] }
