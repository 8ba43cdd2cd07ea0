[package]
name = "calp"
version = "0.1.0"
edition = "2021"
publish = false

[dependencies]
ansi_term = "0.12"
chrono = "0.4"
clap = { version = "4", features = ["derive"] }
encoding_rs = "0.8"
