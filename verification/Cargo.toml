[package]
name = "regex_railroad"
version = "0.1.0"
edition = "2021"
publish = false

[dependencies]
rmpv = "*"
rsnvim = "*"
tracing = "*"
tracing-subscriber = "*"
