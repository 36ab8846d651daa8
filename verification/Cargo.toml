[package]
name = "url_translator"
version = "0.1.0"
edition = "2021"
publish = false

[dependencies]
url = "=2.5.8"
uuid = { version = "=1.29.0", features = ["v4", "js"] }
chrono = "=0.4.45"
tar = "=0.4.46"
flate2 = "=1.1.10"
urlencoding = "=2.1.3"
serde = { version = "=1.0.229", features = ["derive"] }
serde_json = "=1.0.154"
thiserror = "=1.0.69"
reqwest = { version = "=0.12.28", default-features = false, features = ["json"] }
gloo-storage = "=0.3.0"
gloo-timers = { version = "=0.3.0", features = ["futures"] }
js-sys = "=0.3.107"
web-sys = { version = "=0.3.107", features = ["console", "Window", "Document", "Url", "Storage"] }
wasm-bindgen = "=0.2.130"
wasm-bindgen-futures = "=0.4.80"
