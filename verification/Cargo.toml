[package]
name = "ultimattt_cli"
version = "0.1.0"
edition = "2021"
publish = false

[dependencies]
ansi_term = "0.12"
bytesize = "1"
structopt = "0.3"

[dev-dependencies]
regex = "1"
