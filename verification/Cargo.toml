[package]
name = "cargo_sideload"
version = "0.1.0"
edition = "2021"
publish = false

[dependencies]
anyhow = "*"
clap = { version = "*", features = ["derive", "env"] }
dirs = "*"
dotenv = "*"
log = "*"
pretty_env_logger = "*"
reqwest = { version = "*", features = ["blocking"] }
semver = "=1.0.28"
serde = { version = "*", features = ["derive"] }
serde_json = "=1.0.151"
toml = "=0.5.11"
url = "=2.5.8"
