[package]
name = "macland-core"
version = "0.1.0"
edition = "2021"
publish = false

[dependencies]
serde = { version = "1", features = ["derive"] }
serde_json = "1"
wayland-client = "0.31"
wayland-protocols = { version = "0.32", features = ["client"] }
core-foundation = "0.10"
core-graphics = "0.24"
