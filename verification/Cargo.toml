[package]
name = "drag_list"
version = "0.1.0"
edition = "2021"
publish = false

[dependencies]
anyhow = "=1.0.104"
js-sys = "=0.3.106"
serde = "=1.0.229"
serde_derive = "=1.0.229"
wasm-bindgen = "=0.2.129"
web-sys = { version = "=0.3.106", features = ["DataTransfer", "DragEvent"] }
yew = "=0.18.0"
