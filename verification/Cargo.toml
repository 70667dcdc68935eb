[package]
name = "binlang"
version = "0.1.0"
edition = "2021"
publish = false

[dependencies]
string-interner = "*"
anyhow = "*"
clap = { version = "*", features = ["derive"] }
env_logger = "*"
