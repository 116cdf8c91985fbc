[package]
name = "wiremux"
version = "0.1.0"
edition = "2021"
publish = false

[dependencies]
serde = { version = "1", features = ["derive"] }
toml = "0.8"
serialport = { version = "4", default-features = false }
crossterm = "0.28"
