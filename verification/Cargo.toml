[package]
name = "appletalk"
version = "0.1.0"
edition = "2021"
publish = false

[dependencies]
clap = { version = "4", features = ["derive"] }
pnet = "0.35"
serialport = { version = "4", default-features = false }
socket2 = { version = "0.5", features = ["all"] }
