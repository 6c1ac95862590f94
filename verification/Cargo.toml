[package]
name = "itools_plugin"
version = "0.1.0"
edition = "2021"
publish = false

[dependencies]
base64 = "0.22"
chrono = "0.4"
dirs = "*"
image = { version = "0.25", default-features = false, features = ["png", "jpeg", "webp", "bmp", "gif", "tiff", "ico", "tga", "pnm", "dds"] }
opener = "0.7"
png = "0.17"
regex = "1"
serde = { version = "1", features = ["derive"] }
serde_json = "1"
sha2 = "0.10"
ureq = { version = "2", default-features = false, features = ["tls"] }
walkdir = "2"
zip = { version = "2", default-features = false, features = ["deflate"] }
