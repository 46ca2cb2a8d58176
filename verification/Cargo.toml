[package]
name = "unlha_uae"
version = "0.2.0"
edition = "2021"
publish = false

[dependencies]
delharc = "*"
clap = "*"
chrono = "0.4"
