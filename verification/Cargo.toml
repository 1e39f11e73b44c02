[package]
name = "factor_trace"
version = "0.1.0"
edition = "2021"
publish = false

[dependencies]
termion = "1"
facto = "*"
clap = "2"
