[package]
name = "brel"
version = "0.1.0"
edition = "2021"
publish = false

[dependencies]
anyhow = "*"
clap = { version = "*", features = ["derive"] }
dialoguer = "*"
handlebars = "*"
semver = "*"
serde_json = "*"
similar = "*"
toml = "*"
toml_edit = "*"
