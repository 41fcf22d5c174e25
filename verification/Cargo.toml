[package]
name = "media_backup_manager"
version = "1.6.8"
edition = "2021"
publish = false

[dependencies]
base64 = "=0.22.1"
chrono = { version = "=0.4.45", default-features = false, features = ["clock"] }
eframe = { version = "=0.29.1", default-features = false, features = ["default_fonts", "glow", "x11"] }
image = { version = "=0.25.10", default-features = false, features = ["png", "jpeg"] }
kamadak-exif = "=0.5.5"
reqwest = { version = "=0.12.28", default-features = false, features = ["blocking", "json", "rustls-tls"] }
serde = { version = "=1.0.229", features = ["derive"] }
serde_json = "=1.0.154"
winapi = { version = "=0.3.9", features = ["dpapi", "winbase", "wincrypt", "minwindef"] }
