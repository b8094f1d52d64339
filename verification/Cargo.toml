[package]
name = "tailglow"
version = "0.1.0"
edition = "2021"
publish = false

[dependencies]
nu-ansi-term = "*"
memchr = "*"
tokio = { version = "*", features = ["rt", "macros", "fs", "io-util", "time", "sync"] }
linemux = "*"
miette = "*"
async-trait = "*"
