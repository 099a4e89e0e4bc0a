[package]
name = "doc_photos"
version = "1.0.0"
edition = "2021"
publish = false

[dependencies]
serde = { version = "1", features = ["derive"] }
serde_json = "1"
toml = "*"
image = { version = "*", default-features = false }
ort = { version = "2.0.0-rc.10", default-features = false, features = ["load-dynamic"] }
