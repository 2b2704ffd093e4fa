[package]
name = "hyprlaser"
version = "0.1.0"
edition = "2021"
publish = false

[dependencies]
bytemuck = { version = "=1.25.2", features = ["derive", "min_const_generics"] }
clap = { version = "=4.6.7", features = ["derive"] }
csscolorparser = "=0.8.4"
ctrlc = "=3.5.2"
env_logger = "=0.11.11"
log = "=0.4.35"
pollster = "=0.4.0"
raw-window-handle = "=0.6.2"
smithay-client-toolkit = { version = "=0.19.2", default-features = false }
wayland-backend = { version = "=0.3.17", features = ["client_system", "dlopen"] }
wayland-client = "=0.31.15"
wayland-protocols = { version = "=0.32.13", features = ["client", "staging"] }
wgpu = { version = "=22.1.0", default-features = false, features = ["wgsl"] }
