[package]
name = "dock_layout"
version = "0.1.0"
edition = "2021"
publish = false

[dependencies]
anyhow = "1"
smol = "2"
uuid = { version = "1", features = ["v4"] }
