[package]
name = "pfen"
version = "0.1.0"
edition = "2021"
publish = false

[dependencies]
thiserror-no-std = "2.0"
