[package]
name = "ballsim"
version = "0.1.0"
edition = "2021"
publish = false

[dependencies]
bytemuck = { version = "*", features = ["derive"] }
env_logger = "*"
glam = "*"
pollster = "*"
wgpu = "24"
winit = "0.30"
