[package]
name = "rlox"
version = "0.1.0"
edition = "2021"
publish = false

[dependencies]
unicode-segmentation = "1"
const_soft_float = "*"
clap = { version = "4", features = ["derive"] }
