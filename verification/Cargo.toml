[package]
name = "flatmarkdown"
version = "0.1.0"
edition = "2021"
publish = false

[dependencies]
comrak = { version = "=0.51.0", default-features = false, features = ["shortcodes"] }
serde_json = "=1.0.154"
