[package]
name = "colormemuch"
version = "0.1.0"
edition = "2021"
publish = false

[dependencies]
dirs = "6"
eframe = { version = "0.29", default-features = false, features = ["default_fonts", "glow", "x11"] }
interprocess = "1.2"
serde = { version = "1", features = ["derive"] }
serde_json = "1"
