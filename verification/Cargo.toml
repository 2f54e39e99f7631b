[package]
name = "nwd1_quic"
version = "0.1.0"
edition = "2021"
publish = false

[dependencies]
bytes = "1"
nwd1 = "*"
netid64 = "*"
quinn = { version = "0.11", default-features = false, features = ["runtime-tokio"] }
