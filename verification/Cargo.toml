[package]
name = "aao_os"
version = "0.1.0"
edition = "2021"
publish = false

[dependencies]
uefi = { version = "=0.29.0", features = ["alloc"] }
x86_64 = { version = "=0.15.5", default-features = false, features = ["instructions"] }
