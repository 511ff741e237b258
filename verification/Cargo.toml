[package]
name = "xcli"
version = "0.5.0"
edition = "2021"
publish = false

[dependencies]
log = "*"
rustyline = "*"
rustyline-derive = "*"
