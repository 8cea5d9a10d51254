[package]
name = "mdsummary"
version = "0.1.0"
edition = "2021"
publish = false

[dependencies]
glob = "0.3"
itertools = "0.13"
structopt = "0.3"
