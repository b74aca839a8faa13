[package]
name = "ncd_cli"
version = "0.1.0"
edition = "2021"
publish = false

[dependencies]
clap = "=2.34.0"
infer = "=0.22.0"
