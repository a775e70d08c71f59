[package]
name = "rugged_turtle"
version = "0.1.0"
edition = "2021"
publish = false

[dependencies]
egui = { version = "=0.33.3", default-features = false }
eframe = { version = "=0.33.3", default-features = false, features = ["persistence", "glow", "x11"] }
egui_extras = { version = "=0.33.3", default-features = false, features = ["svg"] }
egui_dialogs = "=0.3.8"
env_logger = { version = "=0.11.11", default-features = false }
log = "=0.4.34"
serde = { version = "=1.0.229", features = ["derive"] }
