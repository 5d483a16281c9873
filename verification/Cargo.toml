[package]
name = "wboit_splats"
version = "0.1.0"
edition = "2021"
publish = false

[dependencies]
bytemuck = { version = "=1.25.2", features = ["derive"] }
env_logger = "0.11"
glam = { version = "0.30", features = ["bytemuck"] }
log = "0.4"
pollster = "0.4"
wgpu = { version = "=28.0.0", default-features = false, features = ["std", "wgsl", "vulkan"] }
winit = { version = "=0.30.13", default-features = false, features = ["rwh_06", "x11"] }
