[package]
name = "bittorrent"
version = "0.1.0"
edition = "2021"
publish = false

[dependencies]
anyhow = "1"
bip_bencode = "0.4"
console-subscriber = "0.1"
futures = "0.3"
rand = "0.8"
regex = "1"
reqwest = "0.11"
sha1 = "0.10"
tokio = { version = "1", features = ["full", "tracing"] }
urlencoding = "2"
