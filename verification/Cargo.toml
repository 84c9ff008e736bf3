[package]
name = "neuropal_lens"
version = "0.1.0"
edition = "2021"
publish = false

[dependencies]
csv = "*"
serde = { version = "*", features = ["derive"] }
eframe = { version = "*", default-features = false, features = ["default_fonts", "glow", "persistence", "x11"] }
egui = "*"
egui_plot = "*"
