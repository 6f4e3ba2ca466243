[package]
name = "genso_save"
version = "0.1.0"
edition = "2021"
publish = false

[dev-dependencies]
toml = "*"
