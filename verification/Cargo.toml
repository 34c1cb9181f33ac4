[package]
name = "arena_physics"
version = "0.1.0"
edition = "2021"
publish = false

[dependencies]
rustler = "=0.29.1"
serde = { version = "=1.0.229", features = ["derive"] }
