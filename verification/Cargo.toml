[package]
name = "langextract_rust"
version = "0.1.0"
edition = "2021"
publish = false

[dependencies]
futures = "=0.3.34"
log = "=0.4.34"
serde_json = { version = "=1.0.154", features = ["preserve_order"] }
tracing = "=0.1.44"
