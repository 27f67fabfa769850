[package]
name = "utm_calc"
version = "0.1.0"
edition = "2021"

[dependencies]
docopt = "0.7"
rustc-serialize = "0.3"
