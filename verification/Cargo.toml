[package]
name = "sstv_processor"
version = "0.1.0"
edition = "2021"
publish = false

[dependencies]
rand = "*"
rsstv = "*"
image = "*"
hound = "*"
anyhow = "*"
clap = { version = "*", features = ["derive"] }
