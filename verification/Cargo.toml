[package]
name = "fontc"
version = "0.1.0"
edition = "2021"
publish = false

[dependencies]
write-fonts = "*"
font-types = "*"
clap = { version = "*", features = ["derive"] }
env_logger = "*"
