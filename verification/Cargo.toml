[package]
name = "flico"
version = "0.1.0"
edition = "2021"
publish = false

[dependencies]
anyhow = "1"
clap = { version = "4", features = ["derive"] }
console_error_panic_hook = "0.1"
crossbeam-channel = "0.5"
eframe = { version = "0.29", default-features = false, features = ["default_fonts", "glow", "x11"] }
egui_plot = "0.29"
realfft = "3"
serialport = { version = "4", default-features = false }
wasm-bindgen = "0.2"
wasm-bindgen-futures = "0.4"
web-sys = { version = "0.3", features = ["Document", "Element", "HtmlCanvasElement", "Window"] }
web-time = "1"
