[package]
name = "ssb64_utils"
version = "0.1.0"
edition = "2021"
publish = false

[dependencies]
byteorder = "1"
serde = { version = "1", features = ["derive"] }
serde_json = "1"
clap = "2"
getopts = "0.2"
