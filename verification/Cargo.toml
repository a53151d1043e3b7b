[package]
name = "anipwatch"
version = "0.1.0"
edition = "2021"
publish = false

[dependencies]
chrono = { version = "=0.4.45", default-features = false, features = ["clock"] }
chobitlibs = "=0.12.1"
getopts = "=0.2.24"
serde = { version = "=1.0.229", features = ["derive"] }
serde_yaml = "=0.9.34"
env_logger = { version = "=0.10.2", default-features = false }
log = "=0.4.34"
