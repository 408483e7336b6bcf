[package]
name = "input_parsing"
version = "0.1.0"
edition = "2021"
publish = false

[dependencies]
bevy = { version = "=0.7.0", default-features = false }
tracing = "=0.1.37"
tracing-attributes = "=0.1.23"
tracing-subscriber = "=0.3.16"
