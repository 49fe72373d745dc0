[package]
name = "vortex_core"
version = "0.1.0"
edition = "2021"
publish = false

[dependencies]
flatbuffers = "24.3.25"
futures = "0.3"
serde = { version = "1", features = ["derive"] }
serde_json = "1"
tabled = "0.16"
