[package]
name = "sonema"
version = "0.1.0"
edition = "2021"
publish = false

[dependencies]
uuid = { version = "1", features = ["v4"] }
serde = { version = "1", features = ["derive"] }
serde_json = "1"
thiserror = "2"
anyhow = "1"
tempfile = { version = "3", default-features = false }
hound = "3"
symphonia = "0.6"
cpal = { version = "0.17", default-features = false }
crossbeam-channel = "0.5"
crossbeam-queue = "0.3"
parking_lot = "0.12"
eframe = { version = "0.33", default-features = false, features = ["glow", "default_fonts", "x11"] }
rfd = { version = "0.15", default-features = false, features = ["xdg-portal", "tokio"] }
env_logger = { version = "0.11", default-features = false }
