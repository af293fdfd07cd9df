[package]
name = "willekeurig"
version = "0.1.0"
edition = "2021"
publish = false

[dependencies]
anyhow = "1"
bytemuck = { version = "1", features = ["derive"] }
cgmath = "0.18"
futures = "0.3"
image = { version = "0.23", default-features = false, features = ["png"] }
noise = { version = "0.7", default-features = false }
rand = "0.8"
wgpu = "0.11"
wgpu_glyph = "0.15"
winit = "0.25"
