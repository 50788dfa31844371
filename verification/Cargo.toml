[package]
name = "rp"
version = "0.1.0"
edition = "2021"
publish = false

[dependencies]
anyhow = "1"
clap = { version = "4", features = ["derive"] }
memchr = "2"
regex = "1"
tempfile = "3"
thiserror = "1"
