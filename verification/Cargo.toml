[package]
name = "fast_log"
version = "0.1.0"
edition = "2021"
publish = false

[dependencies]
crossbeam-channel = "*"
crossbeam-utils = "*"
fastdate = "*"
flate2 = "*"
lz4_flex = "*"
zip = { version = "*", default-features = false, features = ["deflate"] }
memmap = "*"
