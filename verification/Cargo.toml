[package]
name = "wealthy"
version = "0.1.0"
edition = "2021"
publish = false

[dependencies]
lru = { version = "=0.18.5", default-features = false }
unicode-segmentation = "=1.13.3"
regex = "=1.13.1"
ordered-float = "=5.5.0"
separator = "=0.4.1"
