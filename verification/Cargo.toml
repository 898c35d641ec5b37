[package]
name = "uv-migrator"
version = "0.1.0"
edition = "2021"
publish = false

[dependencies]
clap = "4"
dirs = "5"
env_logger = "0.11"
log = "0.4"
regex = "1"
semver = "1"
serde = { version = "1", features = ["derive"] }
serde_json = "1"
serde_yml = "0.0.12"
toml = "0.8"
toml_edit = "0.22"
which = "7"

[dev-dependencies]
tempfile = "3"
