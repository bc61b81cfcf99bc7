[package]
name = "slate"
version = "0.1.0"
edition = "2021"
publish = false

[dependencies]
anyhow = "1"
clap = { version = "4", features = ["derive"] }
home = "0.5"
nix = { version = "0.29", features = ["user"] }
regex = "1"
rpassword = "7"
serde = { version = "1", features = ["derive"] }
serde_json = "1"
shellexpand = "3"
tera = "1"
toml = "0.8"
