[package]
name = "isolate_rt"
version = "0.1.0"
edition = "2021"
publish = false

[dependencies]
hyper = { version = "*", default-features = false }
getopts = "*"
log = "*"
