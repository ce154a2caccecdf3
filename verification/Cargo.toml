[package]
name = "fastlog"
version = "0.1.0"
edition = "2021"
publish = false

[dependencies]
crossbeam-channel = "=0.5.17"
log = { version = "=0.4.34", features = ["std"] }
time = "=0.3.55"
