[package]
name = "mdless"
version = "0.2.0"
edition = "2021"
publish = false

[dependencies]
unicode-segmentation = "1"
unicode-width = "*"
base64 = "0.22"
image = { version = "0.25", default-features = false, features = ["png"] }
crossterm = "*"
directories = "*"
