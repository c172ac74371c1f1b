[package]
name = "hypest"
version = "0.1.0"
edition = "2021"
publish = false

[dependencies]
octavo = "*"
rustc-serialize = "*"
rand = "*"
sha2 = "*"
bcrypt = "*"
