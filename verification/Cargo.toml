[package]
name = "rustbrush"
version = "0.1.0"
edition = "2021"
publish = false

[dependencies]
pixels = "*"
pollster = "*"
tracing = "0.1"
tracing-subscriber = { version = "0.3", features = ["env-filter"] }
winit = "0.30"
