[package]
name = "dirview"
version = "0.1.0"
edition = "2021"
publish = false

[dependencies]
chrono = "0.4"
chrono_lc = "*"
clap = { version = "4", features = ["derive"] }
colored = "2"
walkdir = "2"
