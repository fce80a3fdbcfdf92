[package]
name = "pixelshift"
version = "0.1.0"
edition = "2021"
publish = false

[dependencies]
clap = { version = "4", features = ["derive"] }
env_logger = "*"
image = { version = "0.25", default-features = false, features = ["png", "tiff"] }
log = "0.4"
memmap = "0.7"
rayon = "1"
