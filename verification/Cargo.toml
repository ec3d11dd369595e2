[package]
name = "drawing"
version = "0.1.0"
edition = "2021"
publish = false

[dependencies]
uuid = { version = "=0.8.2", features = ["v4"] }
# The random bytes of a client id, taken without the panic of uuid's new_v4
# on a failed read (uuid itself draws them from this crate and version).
getrandom = "=0.2.17"
serde = { version = "=1.0.229", features = ["derive"] }
serde_json = "=1.0.154"
tokio = { version = "=1.54.1", features = ["macros", "rt-multi-thread", "sync"] }
tokio-stream = "=0.1.19"
futures = "=0.3.34"
warp = "=0.3.7"
wasm-bindgen = "=0.2.130"
js-sys = "=0.3.107"
web-sys = { version = "=0.3.107", features = ["WebSocket", "MessageEvent", "CanvasRenderingContext2d", "HtmlCanvasElement", "MouseEvent", "Document", "Window", "Element", "EventTarget"] }
closure = "=0.3.0"
