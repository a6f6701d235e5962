[package]
name = "h264_passthrough"
version = "0.1.0"
edition = "2021"
publish = false

[dependencies]
clap = { version = "=4.6.7", features = ["derive"] }
cxx = "=1.0.205"
env_logger = "0.11"
log = "=0.4.35"
parking_lot = "=0.12.5"
tokio = { version = "=1.54.1", features = ["fs", "io-util", "macros", "net", "rt", "signal"] }
