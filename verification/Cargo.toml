[package]
name = "jq2"
version = "0.1.0"
edition = "2021"
publish = false

[dependencies]
jaq-core = "*"
jaq-std = "*"
jaq-json = "*"
crossterm = "*"
rustyline = "*"
