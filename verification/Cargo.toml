[package]
name = "minesweeper"
version = "0.1.0"
edition = "2021"
publish = false

[dependencies]
rand = "0.8"
wasm-bindgen = "0.2"
web-sys = { version = "0.3", features = ["console", "Window", "Document", "Element", "HtmlElement", "HtmlCanvasElement", "CanvasRenderingContext2d", "PointerEvent", "MouseEvent", "EventTarget"] }
futures = "0.3"
wasm-bindgen-futures = "0.4"
console_error_panic_hook = "0.1"
