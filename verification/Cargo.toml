[package]
name = "game"
version = "0.1.0"
edition = "2021"
publish = false

[dependencies]
bytemuck = { version = "*", features = ["derive"] }
glam = { version = "*", features = ["bytemuck"] }
rapier2d = "*"
wasm-bindgen = "*"
wasm-bindgen-futures = "*"
web-sys = { version = "*", features = ["HtmlCanvasElement", "CanvasRenderingContext2d"] }
wgpu = "*"
