[package]
name = "vix"
version = "0.1.0"
edition = "2021"
publish = false

[dependencies]
blake3 = "*"
sha2 = "*"
hex = "*"
facet = "*"
facet-format = "*"
facet-json = "*"
facet-toml = "*"
