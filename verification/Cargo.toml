[package]
name = "apmc"
version = "0.1.0"
edition = "2021"
publish = false

[dependencies]
plist = "1"
clap = { version = "4", features = ["derive"] }
thiserror = "2"
