[package]
name = "fsdr_blocks"
version = "0.1.0"
edition = "2021"
publish = false

[dependencies]
bimap = "=0.6.3"
crossbeam-channel = "=0.5.17"
async-channel = "=2.5.0"
futuresdr = { version = "=0.7.0", default-features = false }
