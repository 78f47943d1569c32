[package]
name = "locres"
version = "0.1.0"
edition = "2021"

[dependencies]
thiserror = "*"
