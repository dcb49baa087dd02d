[package]
name = "webgpupy"
version = "0.1.0"
edition = "2021"
publish = false

[dependencies]
bytemuck = "1"
pollster = "0.3"
pyo3 = { version = "0.21", features = ["extension-module"] }
pyo3-log = "0.10"
wgpu = "0.19"
