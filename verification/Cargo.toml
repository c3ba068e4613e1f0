[package]
name = "napm"
version = "0.1.0"
edition = "2021"
publish = false

[dependencies]
alpm = "*"
anyhow = "*"
clap = { version = "*", features = ["derive"] }
libarchive2 = "*"
