[package]
name = "shape_arena"
version = "0.1.0"
edition = "2021"
publish = false

[dependencies]
base64 = "0.22"
sha1 = "0.10"
rand = "0.8"
serde = { version = "1", features = ["derive"] }
serde_json = "1"
