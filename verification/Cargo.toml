[package]
name = "tradiff"
version = "0.1.0"
edition = "2021"
publish = false

[dependencies]
anyhow = "*"
clap = { version = "*", features = ["derive"] }
encoding_rs = "*"
nu-ansi-term = "*"
termsize = "*"
