[package]
name = "find_cargo_toml"
version = "0.1.0"
edition = "2021"
publish = false

[dev-dependencies]
fs-err = "*"
