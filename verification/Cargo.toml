[package]
name = "popup_manager"
version = "0.1.0"
edition = "2021"
publish = false

[dependencies]
slog = "2"
wayland-protocols = { version = "*", features = ["server"] }
wayland-server = "*"
