[package]
name = "unrpyc_rs"
version = "0.1.0"
edition = "2021"
publish = false

[dependencies]
flate2 = "1"
serde-pickle = "1"
anyhow = "1"
clap = { version = "4", features = ["derive"] }
