[package]
name = "jisort"
version = "0.1.0"
edition = "2021"
publish = false

[dependencies]
argh = "0.1"
ignore = "0.4"

[dev-dependencies]
nom = "7"
