[package]
name = "gatt_server"
version = "0.1.0"
edition = "2021"
publish = false

[dependencies]
esp-idf-sys = "*"
lazy_static = "1.4"
log = "0.4"
