[package]
name = "nemclass_ui"
version = "0.1.0"
edition = "2021"
publish = false

[dependencies]
dirs = "=6.0.0"
eframe = { version = "=0.35.0", default-features = false, features = ["default_fonts", "glow", "x11"] }
egui = { version = "=0.35.0", default-features = false, features = ["default_fonts"] }
egui_dock = { version = "=0.20.1", features = ["serde"] }
egui_extras = "=0.35.0"
libc = "0.2"
rfd = { version = "=0.17.2", default-features = false, features = ["xdg-portal"] }
serde = { version = "1", features = ["derive"] }
serde_json = "1"
tokio = { version = "=1.54.1", default-features = false, features = ["rt"] }
uuid = { version = "=1.29.0", features = ["v4"] }
