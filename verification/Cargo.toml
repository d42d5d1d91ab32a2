[package]
name = "lsdir"
version = "0.1.0"
edition = "2021"
publish = false

[dependencies]
chrono = "*"
termsize = "*"
users = "*"
clap = { version = "*", features = ["derive"] }
