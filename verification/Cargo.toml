[package]
name = "torrent_supervisor"
version = "0.1.0"
edition = "2021"
publish = false

[dependencies]
async-std = "1"
parking_lot = "0.12"
serde = { version = "1", features = ["derive"] }
serde_bytes = "0.11"
sha1 = "0.6"
smallvec = { version = "1", features = ["serde"] }
url = "2"
