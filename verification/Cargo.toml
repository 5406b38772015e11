[package]
name = "ota_update"
version = "0.1.0"
edition = "2021"
publish = false

[dependencies]
crc = "3"
