[package]
name = "yassy"
version = "0.1.0"
edition = "2021"
publish = false

[dependencies]
libc = "=0.2.191"
lv2 = { version = "=0.6.0", features = ["lv2-sys"] }
rustc-serialize = "=0.3.25"
websocket = { version = "=0.20.4", default-features = false, features = ["sync"] }
