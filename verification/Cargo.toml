[package]
name = "shared"
version = "0.1.0"
edition = "2021"
publish = false

[dependencies]
serde = { version = "1", features = ["derive"] }
serde_json = "1"
js-sys = "0.3"
wasm-bindgen = "0.2"
wasm-bindgen-futures = "0.4"
gloo-net = { version = "0.6", default-features = false, features = ["http", "json"] }
web-sys = { version = "0.3", features = ["Window", "Storage", "Location", "Navigator", "Document", "NodeList", "Node", "Element", "HtmlInputElement", "HtmlTextAreaElement", "MediaQueryList", "Clipboard"] }
