[package]
name = "lumen"
version = "0.1.0"
edition = "2021"
publish = false

[dependencies]
sha2 = "0.10"
hex = "0.4"
base64 = "0.22"
time = "0.3"
turso = "*"
anyhow = "1"
log = "0.4"
pretty_env_logger = "0.5"
serde = { version = "1", features = ["derive"] }
clap = "4"
prometheus-client = "*"
warp = { version = "0.3", default-features = false }
tokio = { version = "1", features = ["full"] }
