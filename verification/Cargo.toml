[package]
name = "iview"
version = "0.1.0"
edition = "2021"
publish = false

[dependencies]
image = { version = "=0.25.10", default-features = false, features = ["bmp", "gif", "jpeg", "png", "tiff", "webp"] }
time-format = "=1.2.4"
kamadak-exif = "=0.6.1"
webp = "=0.3.1"
serde = { version = "1", features = ["derive"] }
serde_json = "1"
directories = "6"
eframe = { version = "0.31", default-features = false, features = ["default_fonts", "glow", "x11"] }
arboard = "3"
rfd = "0.15"
webbrowser = "1"
