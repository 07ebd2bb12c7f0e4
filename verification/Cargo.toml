[package]
name = "osmpbf_parser"
version = "0.1.0"
edition = "2021"
publish = false

[dependencies]
desert = "*"
flate2 = "*"
quick-protobuf = "*"
unbounded-interval-tree = "*"
