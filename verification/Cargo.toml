[package]
name = "bali_image"
version = "0.1.0"
edition = "2021"
publish = false

[dependencies]
bimap = "0.6"
clap = { version = "3", features = ["derive"] }
hexyl = "*"
bat = { version = "*", default-features = false, features = ["regex-fancy"] }
serialport = { version = "4", default-features = false }
