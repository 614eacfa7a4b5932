[package]
name = "codetags"
version = "0.1.0"
edition = "2021"
publish = false

[dependencies]
clap = { version = "4", features = ["cargo"] }
env_logger = "*"
log = "0.4"
mdbook = { version = "0.4", default-features = false }
regex = "1"
semver = "1"
serde_json = "1"
toml = "0.5"
walkdir = "2"
