[package]
name = "sceneweaver"
version = "0.1.0"
edition = "2021"
publish = false

[dependencies]
blake3 = "1"
chrono = "0.4"
dunce = "1"
globset = "0.4"
image = "0.25"
kamadak-exif = "0.5"
log = "0.4"
rusqlite = { version = "0.32", features = ["bundled"] }
serde = { version = "1", features = ["derive"] }
serde_json = "1"
thiserror = "1"
uuid = { version = "1", features = ["v4"] }
walkdir = "2"
which = "6"
