[package]
name = "ba_comm"
version = "0.1.0"
edition = "2021"
publish = false

[dependencies]
anyhow = "*"
chrono = "*"
clap = "2"
serialport = { version = "4", default-features = false }

[dev-dependencies]
postcard = "*"
