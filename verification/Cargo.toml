[package]
name = "wordindex"
version = "0.1.0"
edition = "2021"
publish = false

[dependencies]
convert_case = "0.6"
emojis = "0.6"
minicbor = { version = "0.20", features = ["alloc"] }
pagefind_stem = { version = "0.2", features = ["english", "french"] }
regex = "1"
unicode-normalization = "0.1"
unicode-segmentation = "1"
