[package]
name = "shoe"
version = "0.1.0"
edition = "2021"
publish = false

[dependencies]
meval = "*"
strip-ansi-escapes = "*"
crossterm = "*"
copypasta = "*"
ctrlc = "*"
relative-path = "*"
shellexpand = "*"
