[package]
name = "pic_viewer"
version = "0.1.0"
edition = "2021"
publish = false

[dependencies]
urlencoding = "=2.1.3"
base64 = "=0.22.1"
little_exif = "=0.6.23"
image = { version = "=0.25.10", default-features = false, features = ["jpeg", "png", "gif", "webp", "bmp", "tiff"] }
zip = { version = "=2.6.1", default-features = false, features = ["deflate"] }
axum = "=0.8.9"
tokio = { version = "=1.54.1", features = ["full"] }
tokio-util = { version = "=0.7.20", features = ["io"] }
futures-util = "=0.3.34"
bytes = "=1.12.1"
reqwest = { version = "=0.12.28", default-features = false, features = ["stream"] }
serde = { version = "=1.0.229", features = ["derive"] }
