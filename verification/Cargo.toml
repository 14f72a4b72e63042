[package]
name = "tweld"
version = "0.1.0"
edition = "2021"
publish = false

[dependencies]
heck = "0.5"
syn = "2"
proc-macro2 = "1"
quote = "1"
