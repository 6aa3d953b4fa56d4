[package]
name = "netscan"
version = "0.1.0"
edition = "2021"
publish = false

[dependencies]
ipnetwork = { version = "0.21.1", default-features = false }
