[package]
name = "qsvdp"
version = "0.1.0"
edition = "2021"
publish = false

[dependencies]
mlua = { version = "*", features = ["luau"] }
ryu = "*"
csv = "*"
csv-index = "*"

[dev-dependencies]
tempfile = "*"
