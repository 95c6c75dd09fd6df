[package]
name = "renderer"
version = "0.1.0"
edition = "2021"
publish = false

[dependencies]
eframe = { version = "=0.24.1", default-features = false, features = ["glow", "x11"] }
egui_extras = { version = "=0.24.2", default-features = false, features = ["image"] }
