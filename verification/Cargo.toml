[package]
name = "edit_locally"
version = "0.1.0"
edition = "2021"
publish = false

[dependencies]
toml = "=0.4.10"
pathdiff = "=0.1.0"
cargo = "=0.52.0"
git2 = "=0.13.25"
anyhow = "1.0"
docopt = "=1.1.1"
env_logger = "=0.5.13"
serde = "1.0"
serde_derive = "1.0"
serde_json = "1.0"
