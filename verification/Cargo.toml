[package]
name = "kilit"
version = "0.1.0"
edition = "2021"
publish = false

[dependencies]
aes = "0.7"
base64 = "0.13"
block-modes = "0.8"
block-padding = "0.2"
rand = "0.8"
clap = "3"
rpassword = "7"
rustyline = "*"
