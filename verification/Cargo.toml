[package]
name = "framely"
version = "0.1.0"
edition = "2021"
publish = false

[dependencies]
tiny-skia = "=0.11.4"
image = { version = "=0.25.10", default-features = false, features = ["png", "jpeg"] }
serde = { version = "=1.0.229", features = ["derive"] }
serde_json = "=1.0.154"
screencapturekit = "=11.1.2"
arboard = { version = "=3.7.0", default-features = false }
global-hotkey = "=0.6.4"
tray-icon = { version = "=0.19.3", default-features = false }
rfd = { version = "=0.15.4", default-features = false, features = ["gtk3"] }
egui = { version = "0.29", default-features = false, features = ["default_fonts"] }
eframe = { version = "0.29", default-features = false, features = ["default_fonts", "glow", "x11"] }
