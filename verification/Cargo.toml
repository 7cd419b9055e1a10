[package]
name = "burrow"
version = "0.1.0"
edition = "2021"
publish = false

[dependencies]
base64 = "0.22"
serde = { version = "1", features = ["derive"] }
serde_json = "1"
sha2 = "0.10"
uuid = { version = "1", features = ["v4"] }
trash = "*"
tempfile = "3"
libc = "0.2"
core-foundation = "*"
