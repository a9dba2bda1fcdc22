[package]
name = "handwriter_service"
version = "0.1.0"
edition = "2021"
publish = false

[dependencies]
md5 = "=0.7.0"
serde = { version = "=1.0.229", features = ["derive"] }
serde_json = "=1.0.154"
tokio = { version = "=1.54.1", features = ["full"] }
warp = "=0.3.7"
reqwest = { version = "=0.11.27", default-features = false, features = ["json", "rustls-tls"] }
futures = "=0.3.34"
log = "=0.4.35"
pretty_env_logger = "=0.4.0"
anyhow = "=1.0.104"
yew = { version = "0.17", features = ["web_sys"] }
yewtil = "0.3"
web-sys = { version = "0.3", features = ["HtmlInputElement", "HtmlTextAreaElement", "Url", "Blob", "BlobPropertyBag", "Element"] }
wasm-bindgen = "0.2"
wasm-logger = "0.2"
console_error_panic_hook = "0.1"
