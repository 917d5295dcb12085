[package]
name = "upstall"
version = "0.1.0"
edition = "2021"
publish = false

[dependencies]
semver = "1"
toml = "*"
serde = { version = "1", features = ["derive"] }
serde_json = "1"
docopt = "*"
reqwest = { version = "*", default-features = false, features = ["blocking"] }
