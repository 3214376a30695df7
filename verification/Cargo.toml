[package]
name = "ggsdk"
version = "0.1.0"
edition = "2021"
publish = false

[dependencies]
eframe = { version = "=0.31.1", default-features = false, features = ["glow", "default_fonts", "x11"] }
futures = "=0.3.34"
glam = "=0.34.1"
image = { version = "=0.25.10", default-features = false, features = ["png"] }
kira = { version = "=0.10.8", default-features = false, features = ["mp3", "ogg", "flac", "wav"] }
rhai = "=1.27.0"
serde = { version = "=1.0.229", features = ["derive"] }
serde_json = "=1.0.154"
tiled = "=0.16.0"
tracing = "=0.1.44"
tracing-subscriber = "=0.3.23"
tracing-web = "=0.1.3"
wasm-bindgen = "=0.2.129"
wasm-bindgen-futures = "=0.4.79"
web-sys = { version = "=0.3.106", features = ["Window", "Request", "RequestInit", "Response", "Storage", "Document", "Element", "HtmlCanvasElement"] }
web-time = "=1.1.0"
