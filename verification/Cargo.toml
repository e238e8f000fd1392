[package]
name = "pretty_assertions_sorted"
version = "0.1.0"
edition = "2021"
publish = false

[dependencies]
darrentsung_debug_parser = "*"
pretty_assertions = "*"

[dev-dependencies]
chrono = "*"
