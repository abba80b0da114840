[package]
name = "growth-simulation"
version = "0.1.0"
edition = "2021"
publish = false

[dependencies]
rand = "0.8"
rstar = "0.9"
serde = { version = "1", features = ["derive"] }
wasm-bindgen = { version = "0.2", features = ["serde-serialize"] }
web-sys = { version = "0.3", features = ["CanvasRenderingContext2d", "Document", "Element", "HtmlCanvasElement", "HtmlElement", "ShadowRoot", "Window"] }
