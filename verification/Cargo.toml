[package]
name = "ssh_core"
version = "0.1.0"
edition = "2021"
publish = false

[dependencies]
aes = { version = "=0.7.5", features = ["ctr"] }
cipher = "=0.3.0"
ctr = "=0.8.0"
filetime = "=0.2.29"
