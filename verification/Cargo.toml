[package]
name = "awc_gui"
version = "0.1.0"
edition = "2021"
publish = false

[dependencies]
image = { version = "=0.25.10", default-features = false }
zune-jpeg = "=0.4.21"
openh264 = "=0.6.6"
virtualcam = "=1.0.0"
serde = { version = "=1.0.229", features = ["derive"] }
serde_json = "=1.0.154"
reqwest = { version = "0.12", default-features = false, features = ["blocking", "json"] }
