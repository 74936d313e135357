[package]
name = "tree2"
version = "0.1.0"
edition = "2021"
publish = false

[dependencies]
regex = "1"
clap = { version = "4", features = ["derive"] }
dunce = "1"
cli-clipboard = "0.4"
clap-version-flag = "*"
