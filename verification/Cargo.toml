[package]
name = "paper_cache"
version = "1.0.0"
edition = "2021"
publish = false

[dependencies]
dashmap = "*"
crossbeam-channel = "*"
kwik = "*"
rustc-hash = "*"
typesize = "*"
parking_lot = "*"
serde = "*"
thiserror = "*"
log = "*"
