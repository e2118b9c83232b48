[package]
name = "speaking_time"
version = "0.1.0"
edition = "2021"
publish = false

[dependencies]
web-time = "*"
eframe = { version = "*", default-features = false, features = ["persistence", "x11", "glow"] }
egui = { version = "*", default-features = false }
rfd = { version = "*", default-features = false, features = ["xdg-portal", "tokio"] }
futures = { version = "*", default-features = false, features = ["std", "executor"] }
serde = { version = "*", features = ["derive"] }
