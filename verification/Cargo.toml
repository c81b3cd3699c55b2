[package]
name = "image_sorter"
version = "0.1.0"
edition = "2021"
publish = false

[dependencies]
regex = "1"
rand = "0.8"
once_cell = "1"
egui = "*"
eframe = { version = "*", default-features = false, features = ["glow", "x11", "default_fonts"] }
egui_extras = { version = "*", default-features = false }
image = { version = "*", default-features = false, features = ["png", "jpeg"] }
mime = "0.3"
thumbnailer = "*"
rayon = "1"
tokio = { version = "1", features = ["rt-multi-thread", "sync"] }
