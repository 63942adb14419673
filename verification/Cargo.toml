[package]
name = "renarrator"
version = "0.1.0"
edition = "2021"
publish = false

[dependencies]
rand = { version = "0.9", features = ["small_rng"] }
rdev = "0.5"
rodio = "*"
winreg = "*"
