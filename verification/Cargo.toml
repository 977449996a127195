[package]
name = "shadowcast"
version = "0.1.0"
edition = "2021"
publish = false

[dependencies]
env_logger = "=0.10.2"
error-iter = "=0.4.1"
log = "=0.4.34"
rayon = "=1.12.0"
tokio = { version = "=1.54.1", default-features = false, features = ["rt-multi-thread"] }
winit = "0.29"
winit_input_helper = "0.15"
