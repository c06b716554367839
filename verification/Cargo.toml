[package]
name = "vidya"
version = "0.1.0"
edition = "2021"
publish = false

[dependencies]
egui = "=0.31.1"
eframe = { version = "=0.31.1", default-features = false, features = ["glow", "default_fonts", "x11"] }
serde = { version = "=1.0.229", features = ["derive"] }
serde_json = "=1.0.154"
png = "=0.18.1"
zip = { version = "=9.2.2", default-features = false }
mp4 = "=0.14.0"
openh264 = "=0.9.9"
