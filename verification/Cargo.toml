[package]
name = "layer_manager"
version = "0.1.0"
edition = "2021"
publish = false

[dependencies]
serde_json = "1"
semver = "1"
flate2 = "1"
tar = "0.4"
zip = "*"
tempfile = "3"
libloading = "0.8"
