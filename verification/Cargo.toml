[package]
name = "crabix"
version = "0.1.0"
edition = "2021"
publish = false

[dependencies]
markdown-it = "*"
tokio = { version = "*", features = ["net", "rt-multi-thread", "macros"] }
log = "*"
simple_logger = "*"
