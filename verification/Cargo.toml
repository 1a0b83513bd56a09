[package]
name = "ara"
version = "0.1.0"
edition = "2021"
publish = false

[dependencies]
bytemuck = { version = "=1.25.2", features = ["derive"] }
env_logger = "=0.11.11"
glam = { version = "=0.29.3", features = ["bytemuck"] }
log = "=0.4.35"
pollster = "=0.4.0"
serde = { version = "=1.0.229", features = ["derive"] }
toml = "=0.8.23"
wgpu = "=24.0.5"
winit = "=0.30.13"
