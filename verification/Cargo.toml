[package]
name = "cubing"
version = "0.1.0"
edition = "2021"
publish = false

[dependencies]
cityhasher = "*"
clap = { version = "*", features = ["derive"] }
