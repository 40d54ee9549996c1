[package]
name = "arrive"
version = "0.1.0"
edition = "2021"
publish = false

[dependencies]
tl = "*"
minreq = "*"
clap = { version = "*", features = ["derive"] }
clap_complete = "*"
dirs = "*"
anyhow = "*"
yansi = "*"
