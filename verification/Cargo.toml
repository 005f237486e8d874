[package]
name = "dandelion"
version = "0.2.0"
edition = "2021"
publish = false

[dependencies]
clap = { version = "4", features = ["derive"] }
inquire = "0.7"
regex = "1"
walkdir = "2"
