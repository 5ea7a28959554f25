[package]
name = "changelog"
version = "0.3.0"
edition = "2021"
publish = false

[dependencies]
anyhow = "1"
chrono = { version = "0.4", default-features = false, features = ["std"] }
clap = "2"
console = "0.15"
env_logger = "0.10"
exitcode = "1"
handlebars = "4"
log = "0.4"
nom = "3"
regex = "1"
serde = { version = "1", features = ["derive"] }
serde_json = "1"
serde_yaml = "0.8"
