[package]
name = "lightherder"
version = "0.1.0"
edition = "2021"
publish = false

[dependencies]
font8x8 = { version = "=0.3.1", default-features = false }
log = "=0.4.35"
env_logger = "=0.11.11"
libc = "=0.2.191"
wgpu = "*"
