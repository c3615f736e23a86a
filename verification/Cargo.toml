[package]
name = "uorustlibs"
version = "0.1.0"
edition = "2021"
publish = false

[dependencies]
byteorder = "=1.5.0"
image = { version = "=0.24.9", default-features = false, features = ["bmp"] }
