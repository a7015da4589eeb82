[package]
name = "snap2zombie"
version = "0.1.0"
edition = "2021"
publish = false

[dependencies]
clap = { version = "=4.6.7", features = ["derive"] }
env_logger = "=0.11.11"
hex = "=0.4.3"
log = "=0.4.34"
serde = "=1.0.229"
sp-crypto-hashing = "=0.1.0"
sp-runtime = "=49.0.0"
tempfile = "=3.27.0"
tokio = { version = "=1.54.1", features = ["macros", "rt-multi-thread"] }

[dev-dependencies]
regex = "=1.13.1"
