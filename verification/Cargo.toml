[package]
name = "glob1rs"
version = "0.1.0"
edition = "2021"
publish = false

[dependencies]
rand = "0.8"
log = "0.4"
bevy = { version = "0.7", default-features = false, features = ["render", "bevy_winit", "x11"] }
bevy_simple_tilemap = "0.8"
