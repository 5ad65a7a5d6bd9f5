[package]
name = "bf5d"
version = "0.1.0"
edition = "2021"
publish = false

[dependencies]
itertools = "0.10"
yew = "0.19"
gloo = "0.6"
web-sys = { version = "0.3", features = ["HtmlDivElement", "HtmlInputElement", "HtmlParagraphElement", "HtmlTextAreaElement", "Node", "Selection", "Document"] }
wasm-logger = "0.2"
console_error_panic_hook = "0.1"
