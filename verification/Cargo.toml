[package]
name = "abura"
version = "0.1.0"
edition = "2021"
publish = false

[dependencies]
hecs = "=0.10.5"
glam = "=0.28.0"
bytemuck = { version = "=1.25.2", features = ["derive"] }
winit = "=0.30.13"
wgpu = "=0.20.1"
pollster = "=0.3.0"
image = { version = "0.25", default-features = false, features = ["png", "jpeg"] }
