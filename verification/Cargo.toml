[package]
name = "paint_plus"
version = "0.1.0"
edition = "2021"
publish = false

[dependencies]
wasm-bindgen = "0.2"
js-sys = "0.3"
web-sys = { version = "0.3", features = [
    "CanvasRenderingContext2d",
    "CssStyleDeclaration",
    "Document",
    "Element",
    "Event",
    "EventTarget",
    "HtmlCanvasElement",
    "HtmlDivElement",
    "HtmlElement",
    "HtmlInputElement",
    "HtmlLabelElement",
    "InputEvent",
    "MouseEvent",
    "Node",
    "Storage",
    "Window",
    "console",
] }
