[package]
name = "tauri_plugin_escpos"
version = "0.1.0"
edition = "2021"
publish = false

[dependencies]
escpos = { version = "=0.20.1", features = ["graphics", "usbprint"] }
base64 = "=0.22.1"
image = { version = "=0.25.10", default-features = false, features = ["png", "jpeg"] }
serde = { version = "=1.0.229", features = ["derive"] }
