[package]
name = "modou"
version = "0.1.0"
edition = "2021"
publish = false

[dependencies]
serde = { version = "1", features = ["derive"] }
serde_json = "1"
toml = "0.9"
libc = "0.2"
log = "0.4"
tauri = { version = "2", default-features = false, features = ["wry"] }
core-foundation = "*"
objc2 = "0.6"
objc2-app-kit = "0.3"
objc2-foundation = "0.3"
