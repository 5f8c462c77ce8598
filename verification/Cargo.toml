[package]
name = "meow"
version = "0.1.0"
edition = "2021"
publish = false

[dependencies]
clap = { version = "*", features = ["derive"] }
console = "*"
ctrlc = "*"
homedir = "*"
indicatif = "*"
