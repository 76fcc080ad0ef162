[package]
name = "cli_tools"
version = "0.1.0"
edition = "2021"
publish = false

[dependencies]
clap = "3.2"
