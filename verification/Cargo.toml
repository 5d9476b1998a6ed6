[package]
name = "statusbar"
version = "0.1.0"
edition = "2021"
publish = false

[dependencies]
cairo-rs = "*"
libc = "0.2"
serde = { version = "1", features = ["derive"] }
serde_json = "1"
x11rb = "0.13"
