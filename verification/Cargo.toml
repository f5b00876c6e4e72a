[package]
name = "flexi_logger"
version = "0.1.0"
edition = "2021"
publish = false

[dependencies]
flate2 = "1"
glob = "0.3"
log = "0.4"
time = { version = "0.3", features = ["local-offset"] }
