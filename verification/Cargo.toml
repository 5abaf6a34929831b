[package]
name = "azva"
version = "0.1.0"
edition = "2021"
publish = false

[dependencies]
serde_json = "1"
serde = { version = "1", features = ["derive"] }
crossbeam-channel = "0.5"
reqwest = { version = "0.12", default-features = false, features = ["blocking", "json"] }
cpal = "0.17"
rodio = "0.22"
ort = { version = "=2.0.0-rc.10", default-features = false, features = ["ndarray", "load-dynamic", "std"] }
ndarray = "0.16"
whisper-rs = "0.16"
eframe = { version = "0.34", default-features = false }
egui = { version = "0.34", default-features = false }
