[package]
name = "chameleos"
version = "0.1.0"
edition = "2021"
publish = false

[dependencies]
bytemuck = { version = "=1.25.2", features = ["derive"] }
clap = { version = "=4.6.7", features = ["derive"] }
csscolorparser = "=0.9.0"
env_logger = "=0.11.11"
log = "=0.4.34"
lyon = "=1.0.19"
pollster = "=1.0.1"
raw-window-handle = "=0.6.2"
wayland-backend = "=0.3.17"
wayland-client = { version = "=0.31.15", features = ["system", "dlopen"] }
wayland-protocols = { version = "=0.32.13", features = ["client", "staging", "unstable"] }
wayland-protocols-wlr = { version = "=0.3.12", features = ["client"] }
wgpu = "=30.0.1"
