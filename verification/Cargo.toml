[package]
name = "ignite_server"
version = "0.1.0"
edition = "2021"
publish = false

[dependencies]
axum = { version = "=0.8.9", features = ["ws"] }
base64 = "=0.22.1"
filetime = "=0.2.29"
futures-util = "=0.3.34"
ignore = "=0.4.34"
mime_guess = "=2.0.5"
notify-debouncer-full = "=0.3.2"
rayon = "=1.12.0"
regex = "=1.13.1"
reqwest = { version = "=0.12.28", default-features = false, features = ["stream", "rustls-tls"] }
serde = { version = "=1.0.229", features = ["derive"] }
serde_json = "=1.0.154"
tokio = { version = "=1.54.1", features = ["full"] }
tower-http = { version = "=0.6.11", features = ["fs", "compression-gzip", "compression-deflate", "compression-br"] }
