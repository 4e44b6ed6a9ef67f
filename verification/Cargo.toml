[package]
name = "env_yoink"
version = "0.1.0"
edition = "2021"
publish = false

[dependencies]
clap = { version = "4", features = ["derive"] }
grep = "0.3"
regex = "1"
walkdir = "2"
