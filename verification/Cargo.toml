[package]
name = "minimmit"
version = "0.1.0"
edition = "2021"
publish = false

[dependencies]
bytes = "1"
clap = { version = "4", features = ["derive"] }
commonware-codec = "=0.0.65"
commonware-cryptography = "=0.0.65"
commonware-macros = "=0.0.65"
commonware-p2p = "=0.0.65"
commonware-runtime = "=0.0.65"
commonware-utils = "=0.0.65"
futures = "0.3"
governor = "0.10"
rand = "0.8"
tracing = "0.1"
