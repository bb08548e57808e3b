[package]
name = "channels_plot"
version = "0.1.0"
edition = "2021"
publish = false

[dependencies]
wasm-bindgen = "=0.2.129"
js-sys = "=0.3.106"
web-sys = { version = "=0.3.106", features = ["HtmlCanvasElement", "Window"] }
plotters = { version = "=0.3.7", default-features = false, features = ["line_series"] }
plotters-canvas = "=0.3.1"
