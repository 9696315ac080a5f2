[package]
name = "pasetogen"
version = "0.1.0"
edition = "2021"
publish = false

[dependencies]
pasetors = "0.7"
base64 = "0.22"
humantime = "2"
time = { version = "0.3", features = ["formatting", "parsing"] }
clap = { version = "4", features = ["derive"] }
