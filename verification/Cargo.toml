[package]
name = "fsproto"
version = "0.1.0"
edition = "2021"
publish = false

[dependencies]
chrono = "*"
nix = { version = "*", features = ["fs"] }
x509-certificate = "*"

[dev-dependencies]
libc = "*"
