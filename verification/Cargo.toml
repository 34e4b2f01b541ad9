[package]
name = "dygma_focus"
version = "0.1.0"
edition = "2021"
publish = false

[dependencies]
serialport = { version = "*", default-features = false }
clap = { version = "*", features = ["derive"] }
