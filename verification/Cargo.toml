[package]
name = "game2048"
version = "0.1.0"
edition = "2021"
publish = false

[dependencies]
rand = "0.8"
yew = { version = "0.21", features = ["csr"] }
wasm-bindgen = "0.2"
web-sys = { version = "0.3", features = ["HtmlDivElement", "HtmlElement", "KeyboardEvent", "Touch", "TouchEvent", "TouchList", "Window"] }
console_error_panic_hook = "0.1"
actix-web = { version = "4", default-features = false, features = ["macros"] }
actix-files = "0.6"
