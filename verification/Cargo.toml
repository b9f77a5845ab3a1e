[package]
name = "tokio-netstring"
version = "0.1.0"
edition = "2021"
publish = false

[dependencies]
bytes = "0.4"
futures = "0.1"
tokio-io = "0.1"
