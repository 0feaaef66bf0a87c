[package]
name = "ledbetter"
version = "0.1.0"
edition = "2021"
publish = false

[dependencies]
eframe = { version = "0.31", default-features = false, features = ["glow", "default_fonts", "x11"] }
hsluv = "0.3"
rust_dmx = "*"
serde = { version = "1", features = ["derive"] }
serde_yaml = "0.9"
