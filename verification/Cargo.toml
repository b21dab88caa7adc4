[package]
name = "kangaroo_lab_verified"
version = "0.1.0"
edition = "2021"
publish = false

[dependencies]
rand = "0.10"
num-integer = "0.1"
clap = { version = "4", features = ["derive"] }
indicatif = "*"
