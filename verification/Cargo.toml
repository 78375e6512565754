[package]
name = "factorr"
version = "0.1.0"
edition = "2021"
publish = false

[dependencies]
primefactor = "*"
atty = "0.2"
clap = { version = "4", features = ["derive"] }
owo-colors = "3"
rustyline = "10"
