[package]
name = "letter_mesh"
version = "0.1.0"
edition = "2021"
publish = false

[dependencies]
rand_pcg = "0.9"
wgpu = "24"
winit = "0.30"
cgmath = "0.18"
bytemuck = { version = "1", features = ["derive"] }
pollster = "0.4"
web-time = "1"
console_error_panic_hook = "0.1"
