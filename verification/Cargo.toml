[package]
name = "mr"
version = "0.1.0"
edition = "2021"
publish = false

[dependencies]
glob = "0.3"
json = "0.12"
structopt = "0.3"
