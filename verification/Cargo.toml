[package]
name = "teshi"
version = "0.1.0"
edition = "2021"
publish = false

[dependencies]
unicode-width = "=0.2.3"
serde = { version = "=1.0.229", features = ["derive"] }
serde_json = "=1.0.154"
log = "=0.4.35"
web-sys = { version = "=0.3.107", features = ["Window", "Storage", "Location", "Document", "Element", "DomRect", "HtmlElement", "Event", "EventTarget", "KeyboardEvent", "MouseEvent"] }
wasm-bindgen = "=0.2.130"
wasm-bindgen-futures = "=0.4.80"
console_error_panic_hook = "=0.1.7"
wasm-logger = "=0.2.0"
ewebsock = "=0.8.0"
reqwest = { version = "=0.12.28", default-features = false, features = ["json"] }
tui-tree-widget = "=0.24.1"
ratatui-core = { version = "=0.1.2", default-features = false, features = ["std"] }
ratatui-widgets = { version = "=0.3.2", default-features = false, features = ["std"] }
