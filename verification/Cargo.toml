[package]
name = "iso9660"
version = "0.1.0"
edition = "2021"
publish = false

[dependencies]
encoding_rs = "0.8"
time = "0.3"

[dev-dependencies]
md5 = "0.7"
