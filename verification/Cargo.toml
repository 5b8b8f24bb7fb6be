[package]
name = "aparte"
version = "0.1.0"
edition = "2021"
publish = false

[dependencies]
unicode-segmentation = "=1.13.3"
unicode-display-width = "=0.3.0"
crossterm = "=0.27.0"
serde = { version = "=1.0.229", features = ["derive"] }
anyhow = "=1.0.104"
linked_hash_set = "0.1"
linked-hash-map = "=0.5.6"
