[package]
name = "zip_extractor"
version = "0.1.0"
edition = "2021"
publish = false

[dependencies]
zip = "=8.6.0"
eframe = { version = "=0.36.2", default-features = false, features = ["glow", "x11"] }
rfd = "=0.17.2"
