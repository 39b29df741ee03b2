[package]
name = "bridgefs"
version = "0.1.0"
edition = "2021"
publish = false

[dependencies]
blake3 = "*"
base64 = "*"
bincode = { version = "*", features = ["derive"] }
fuser = "*"
libc = "*"
