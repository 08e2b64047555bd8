[package]
name = "zarc"
version = "0.1.0"
edition = "2021"
publish = false

[dependencies]
smol_str = "*"
uuid = "*"
lazy_static = "*"
inventory = "*"

[dev-dependencies]
arrayvec = "*"
