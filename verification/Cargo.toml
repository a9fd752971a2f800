[package]
name = "git_rs"
version = "0.1.0"
edition = "2021"
publish = false

[dependencies]
clap = { version = "4", features = ["derive"] }
flate2 = "1"
rust-crypto = "0.2.36"

[dev-dependencies]
rand = "0.8"
