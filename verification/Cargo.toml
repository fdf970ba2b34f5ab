[package]
name = "raster_paint"
version = "0.1.0"
edition = "2021"
publish = false

[dependencies]
image = { version = "0.25", default-features = false, features = ["png", "jpeg", "bmp"] }
arboard = "3"
egui = "0.29"
eframe = { version = "0.29", default-features = false, features = ["glow", "default_fonts", "x11", "wayland"] }
rfd = "0.15"
