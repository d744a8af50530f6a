[package]
name = "stegano"
version = "0.1.0"
edition = "2021"
publish = false

[dependencies]
clap = { version = "4", features = ["derive"] }
hound = "3"
tempfile = "3"
image = { version = "0.25", default-features = false, features = ["png", "jpeg"] }
