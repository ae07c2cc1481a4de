[package]
name = "librcrypt"
version = "0.1.0"
edition = "2021"
publish = false

[dependencies]
base64 = "0.13"
blake3 = { version = "1", features = ["pure"] }
rand = "0.8"
rand_chacha = "0.3"
clap = { version = "4", features = ["derive"] }
eframe = { version = "0.20", default-features = false, features = ["glow"] }
thiserror = "1"
tracing-subscriber = "0.3"
