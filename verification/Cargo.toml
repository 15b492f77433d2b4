[package]
name = "monkey"
version = "0.1.0"
edition = "2021"
publish = false

[dependencies]
itertools = "*"
ariadne = "*"
clap = { version = "*", features = ["derive"] }
rustyline = "*"
strum = { version = "*", features = ["derive"] }
