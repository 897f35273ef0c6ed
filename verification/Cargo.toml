[package]
name = "sky-save"
version = "0.1.0"
edition = "2021"
publish = false

[dependencies]
arrayvec = "=0.7.8"
bitvec = "=1.1.1"
thiserror = "=1.0.69"
eframe = { version = "0.29", default-features = false, features = ["default_fonts", "glow", "x11"] }
egui = "0.29"
egui_tiles = "0.10"
egui_virtual_list = "0.5"
rfd = "0.15"
