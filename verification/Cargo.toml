[package]
name = "sdui"
version = "0.1.0"
edition = "2021"
publish = false

[dependencies]
accesskit = "=0.24.1"
accesskit_winit = { version = "=0.33.2", default-features = false, features = ["rwh_06"] }
axum = "0.8"
bytemuck = { version = "=1.25.2", features = ["derive"] }
cel-interpreter = "=0.10.0"
clap = { version = "4", features = ["derive"] }
console_error_panic_hook = "0.1"
gloo-timers = { version = "0.3", features = ["futures"] }
glyphon = "0.11"
js-sys = "0.3"
pollster = "=0.4.0"
serde = { version = "1", features = ["derive"] }
serde_json = "=1.0.154"
thiserror = "2"
tokio = { version = "=1.54.1", features = ["rt-multi-thread", "macros", "net"] }
tower-http = { version = "0.6", features = ["fs", "cors"] }
ureq = { version = "3", default-features = false }
wasm-bindgen = "0.2"
wasm-bindgen-futures = "0.4"
web-sys = { version = "0.3", features = ["console", "Document", "Element", "HtmlCanvasElement", "HtmlElement", "Location", "MouseEvent", "Node", "PointerEvent", "Request", "RequestInit", "RequestMode", "Response", "Window"] }
wgpu = "29"
winit = { version = "0.30", default-features = false, features = ["rwh_06", "x11"] }
