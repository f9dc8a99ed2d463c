[package]
name = "env_manager"
version = "0.1.0"
edition = "2021"
publish = false

[dependencies]
eframe = { version = "*", default-features = false, features = ["glow", "x11", "default_fonts"] }
serde = { version = "1", features = ["derive"] }
serde_json = "1"
ureq = "3"
zip = { version = "*", default-features = false, features = ["deflate"] }
tar = "*"
flate2 = "1"
