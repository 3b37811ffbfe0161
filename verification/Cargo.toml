[package]
name = "mutation_interpreter"
version = "0.1.0"
edition = "2021"
publish = false

[dependencies]
wasm-bindgen = "=0.2.129"
web-sys = { version = "=0.3.106", features = ["CssStyleDeclaration", "Document", "Element", "Event", "EventTarget", "HtmlElement", "HtmlInputElement", "HtmlOptionElement", "HtmlSelectElement", "HtmlTextAreaElement", "Node", "Text", "Window"] }
