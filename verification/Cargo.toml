[package]
name = "colonnade"
version = "1.3.3"
edition = "2021"
publish = false

[dependencies]
term = "0.7"
