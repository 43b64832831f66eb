[package]
name = "luminousity"
version = "0.1.0"
edition = "2021"
publish = false

[dependencies]
crossterm = "0.28"
dirs = "5"
serde = { version = "1", features = ["derive"] }
serde_json = "1"
