[package]
name = "wonderdraft_asset_studio"
version = "0.1.0"
edition = "2021"
publish = false

[dependencies]
image = { version = "=0.25.10", default-features = false, features = ["png", "jpeg", "webp", "bmp", "tiff"] }
serde = { version = "=1.0.229", features = ["derive"] }
serde_json = "=1.0.154"
anyhow = "=1.0.104"
eframe = { version = "=0.35.0", default-features = false, features = ["default_fonts", "glow", "x11"] }
egui = { version = "=0.35.0", features = ["serde"] }
egui_extras = "=0.35.0"
rfd = "=0.17.2"
