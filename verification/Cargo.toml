[package]
name = "qfg5reenigne"
version = "0.1.0"
edition = "2021"
publish = false

[dependencies]
anyhow = "1"
bmp = "0.5"
byteorder = "1"
clap = { version = "4", features = ["derive"] }
env_logger = "0.11"
log = "0.4"
