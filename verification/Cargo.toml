[package]
name = "path-shadows"
version = "0.1.0"
edition = "2021"
publish = false

[dependencies]
same-file = "1"
structopt = "0.2"
structopt-derive = "0.2"

[dev-dependencies]
tempfile = "3"
