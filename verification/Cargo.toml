[package]
name = "binary-heap-plus"
version = "0.5.0"
edition = "2021"
publish = false

[dependencies]
compare = "0.1"
serde = { version = "1", features = ["derive"] }
