[package]
name = "ramhorns"
version = "0.1.0"
edition = "2021"
publish = false

[dependencies]
arrayvec = "=0.7.8"
pulldown-cmark = { version = "=0.13.4", default-features = false, features = ["html"] }
