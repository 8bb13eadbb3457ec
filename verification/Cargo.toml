[package]
name = "perlchecker"
version = "0.1.0"
edition = "2021"
publish = false

[dependencies]
z3 = "*"
clap = { version = "4", features = ["derive"] }
thiserror = "2"
