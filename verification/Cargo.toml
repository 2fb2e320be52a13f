[package]
name = "build_context"
version = "0.1.0"
edition = "2021"
publish = false

[dependencies]
jobserver = "*"
