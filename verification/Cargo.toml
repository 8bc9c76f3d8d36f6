[package]
name = "console_broker"
version = "0.1.0"
edition = "2021"
publish = false

[dependencies]
tokio = { version = "*", features = ["sync", "rt-multi-thread", "macros", "io-util", "io-std", "time"] }
crossterm = "*"
