[package]
name = "gcloud_reader"
version = "0.1.0"
edition = "2021"
publish = false

[dependencies]
serde_json = "=1.0.151"
arg = { version = "=0.4.5", features = ["std"] }
