[package]
name = "pixelsort"
version = "0.1.0"
edition = "2021"
publish = false

[dependencies]
anyhow = "1"
eframe = { version = "0.27", default-features = false, features = ["glow", "default_fonts"] }
env_logger = "0.11"
i2cdev = "0.6"
image = { version = "0.24", default-features = false, features = ["png", "jpeg"] }
lazy_static = "1"
log = "0.4"
tokio = { version = "1", features = ["rt-multi-thread", "macros", "sync", "time"] }
