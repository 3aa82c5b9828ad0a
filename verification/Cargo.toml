[package]
name = "ltrait"
version = "0.1.0"
edition = "2021"
publish = false

[dependencies]
async-trait = "*"
color-eyre = "*"
dirs = "*"
futures = "*"
tokio-stream = "*"
tracing = "*"
tracing-appender = "*"
tracing-subscriber = "*"
