[package]
name = "overwrite_automator"
version = "0.1.0"
edition = "2021"
publish = false

[dependencies]
anyhow = "=1.0.104"
slint = { version = "=1.18.1", default-features = false, features = ["std", "compat-1-2", "image-default-formats"] }
rfd = "=0.17.2"
notifica = "=3.0.2"
