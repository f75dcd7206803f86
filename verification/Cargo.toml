[package]
name = "xorion"
version = "0.0.1"
edition = "2021"
publish = false

[dependencies]
rand = "0.8"
clap = { version = "4", features = ["derive"] }
tokio = { version = "1", features = ["full"] }
portpicker = "0.1"
