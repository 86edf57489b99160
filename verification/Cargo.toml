[package]
name = "imosid"
version = "0.1.0"
edition = "2021"
publish = false

[dependencies]
sha256 = { version = "*", default-features = false }
toml = "*"
semver = "*"
clap = "*"
colored = "*"
home = "*"
regex = "*"
walkdir = "*"
