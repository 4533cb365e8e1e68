[package]
name = "laser"
version = "0.1.0"
edition = "2021"
publish = false

[dependencies]
regex = "1"
serialport = { version = "4", default-features = false }
cloud-storage = "0.11"
futures = "0.3"
tokio = { version = "1", features = ["macros", "rt-multi-thread"] }
structopt = "0.3"
color-eyre = "0.6"
