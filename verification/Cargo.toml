[package]
name = "min-max-heap"
version = "1.3.0"
edition = "2021"
publish = false

[dependencies]
serde = { version = "1", features = ["derive"] }

[dev-dependencies]
rand = "0.8"
