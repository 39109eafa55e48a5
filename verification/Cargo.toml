[package]
name = "unport"
version = "0.1.0"
edition = "2021"
publish = false

[dependencies]
dirs = "*"
tokio = { version = "*", features = ["full"] }
libc = "*"
anyhow = "*"
