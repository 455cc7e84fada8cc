[package]
name = "constrained"
version = "0.1.0"
edition = "2021"
publish = false

[dependencies]
indexmap = "*"
proc-macro2 = "*"
quote = "*"
