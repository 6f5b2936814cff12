[package]
name = "image_meta"
version = "0.1.0"
edition = "2021"
publish = false

[dependencies]
crc32fast = "1"
sha2 = "0.10"
hex = "0.4"
little_exif = "*"
xmp_toolkit = "*"
regex = "1"
png = "*"
image = { version = "*", default-features = false, features = ["png", "jpeg", "webp"] }
webp = "*"
serde = { version = "1", features = ["derive"] }
serde_json = "1"
tokio = { version = "1", features = ["fs", "sync", "rt", "rt-multi-thread", "io-util"] }
rayon = "1"
memmap2 = "*"
chrono = { version = "0.4", default-features = false, features = ["clock"] }
