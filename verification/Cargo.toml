[package]
name = "capsaicin"
version = "0.1.0"
edition = "2021"
publish = false

[dependencies]
bytes = "1"
console_error_panic_hook = "0.1"
jpeg-decoder = { version = "0.3", default-features = false }
rand = "0.8"
rsa = "0.9"
rustls = { version = "0.23", default-features = false, features = ["ring", "std", "tls12", "logging"] }
rustls-native-certs = "0.7"
rustls-pemfile = "2"
sha1 = "0.10"
sha2 = "0.10"
softbuffer = "0.4"
thiserror = "1"
tokio = { version = "1", features = ["full"] }
tokio-rustls = { version = "0.26", default-features = false, features = ["ring", "tls12", "logging"] }
tracing = "0.1"
tracing-subscriber = { version = "0.3", features = ["env-filter"] }
wasm-bindgen = "0.2"
winit = "0.30"

[dev-dependencies]
jpeg-encoder = "0.6"
