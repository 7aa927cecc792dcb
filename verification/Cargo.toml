[package]
name = "rivett"
version = "0.3.0"
edition = "2021"
publish = false

[dependencies]
serde_json = "1"
kamadak-exif = "0.6"
img-parts = "0.3"
rusqlite = { version = "0.32", features = ["bundled"] }
uuid = { version = "1", features = ["v4"] }
image = "0.25"
png = "0.17"
log = "0.4"
env_logger = "0.11"
rawloader = "0.37"
resvg = "0.44"
trash = "5"
chrono = "0.4"
