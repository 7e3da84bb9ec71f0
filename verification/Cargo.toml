[package]
name = "weiawaga"
version = "0.1.0"
edition = "2021"
publish = false

[dependencies]
arrayvec = "0.7"
rand = "0.8"
regex-lite = "0.1"
