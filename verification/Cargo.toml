[package]
name = "elastic_tee_hal"
version = "0.1.0"
edition = "2021"
publish = false

[dependencies]
ring = "0.17"
getrandom = "0.2"
base64 = "0.22"
hex = "0.4"
log = "0.4"
serde = { version = "1", features = ["derive"] }
serde_json = "1"
tokio = { version = "1", features = ["sync"] }
az-snp-vtpm = "*"
