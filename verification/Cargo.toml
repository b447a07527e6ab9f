[package]
name = "harmony"
version = "0.1.0"
edition = "2021"
publish = false

[dependencies]
bytemuck = { version = "=1.25.2", features = ["derive"] }
cgmath = "=0.18.0"
env_logger = "=0.10.2"
instant = "=0.1.13"
log = "=0.4.34"
pollster = "=0.3.0"
rand = "0.8"
ultraviolet = "=0.9.2"
wgpu = "=0.15.1"
winit = "=0.28.7"
winit_input_helper = "=0.14.1"
