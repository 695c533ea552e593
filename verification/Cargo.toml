[package]
name = "waveshaper"
version = "0.1.0"
edition = "2021"
publish = false

[dependencies]
bytemuck = { version = "1", features = ["derive"] }
cfg-if = "1"
console_error_panic_hook = "0.1"
console_log = "1"
env_logger = "0.10"
log = "0.4"
tinyaudio = "0.1"
wasm-bindgen = "0.2"
web-sys = { version = "0.3", features = ["Document", "Window", "Element"] }
wgpu = "0.17"
winit = { version = "0.28", default-features = false, features = ["x11"] }
