[package]
name = "turso_storage"
version = "0.1.0"
edition = "2021"
publish = false

[dependencies]
arc-swap = "1"
bytemuck = "1"
roaring = "0.11"
rustc-hash = "2"
strum = { version = "0.27", features = ["derive"] }
tracing = "0.1"
