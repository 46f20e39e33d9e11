[package]
name = "rust_torrent"
version = "0.1.0"
edition = "2021"
publish = false

[dependencies]
sha1 = "0.10"
hex = "0.4"
urlencoding = "2"
reqwest = { version = "0.12", default-features = false, features = ["blocking"] }
log = "0.4"
env_logger = "0.11"
dotenvy = "0.15"
