[package]
name = "pixelarteditor"
version = "0.1.0"
edition = "2021"
publish = false

[dependencies]
rand = "0.8"
unicode-normalization = "0.1"
unicode-segmentation = "1"
serde = { version = "1", features = ["derive"] }
serde_json = "1"
image = { version = "0.25", default-features = false, features = ["png", "jpeg", "bmp"] }
eframe = { version = "0.31", default-features = false, features = ["default_fonts", "glow", "x11"] }
rfd = { version = "0.15", default-features = false, features = ["xdg-portal", "tokio"] }
dirs = "6"
