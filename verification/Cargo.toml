[package]
name = "usboot"
version = "0.1.0"
edition = "2021"
publish = false

[dependencies]
nusb = "0.2"
thiserror = "2"
tokio = { version = "1", features = ["macros", "rt-multi-thread", "time"] }
clap = { version = "4", features = ["derive"] }
anyhow = "1"
env_logger = "0.11"
log = "0.4"
