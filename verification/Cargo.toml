[package]
name = "trefoil"
version = "0.1.0"
edition = "2021"
publish = false

[dependencies]
itertools = "=0.15.0"
three-d = { version = "=0.18.2", features = ["egui-gui", "text"] }
catppuccin-egui = { version = "=5.7.0", default-features = false, features = ["egui29"] }
