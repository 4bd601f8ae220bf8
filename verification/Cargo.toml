[package]
name = "pdfdiff"
version = "0.1.0"
edition = "2021"
publish = false

[dependencies]
anyhow = "1"
clap = { version = "4", features = ["derive"] }
tempfile = "3"
walkdir = "2"
which = "6"
