[package]
name = "explotty"
version = "0.1.0"
edition = "2021"
publish = false

[dependencies]
unicode-width = "*"
anyhow = "*"
chrono = { version = "*", default-features = false, features = ["clock"] }
eframe = { version = "*", default-features = false, features = ["glow", "x11"] }
egui = "*"
egui_extras = "*"
env_logger = { version = "*", default-features = false }
gio = "*"
gtk = "*"
log = "*"
open = "*"
portable-pty = "*"
serde = { version = "*", features = ["derive"] }
toml = "*"
walkdir = "*"
