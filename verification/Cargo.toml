[package]
name = "kas"
version = "0.1.0"
edition = "2021"
publish = false

[dependencies]
glsl-to-spirv = "0.1"
log = "0.4"
proc-macro2 = "1.0"
quote = "1.0"
syn = { version = "1.0", features = ["full", "extra-traits"] }
wgpu = "0.4"
winit = "0.20"
