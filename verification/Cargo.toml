[package]
name = "starpkg"
version = "0.1.0"
edition = "2021"
publish = false

[dependencies]
semver = "*"
toml = "*"
serde = { version = "*", features = ["derive"] }
roxmltree = "*"
structopt = "*"
log = "*"
ansi_term = "*"
anyhow = "*"
thiserror = "*"
duct = "*"
