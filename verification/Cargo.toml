[package]
name = "pier_core"
version = "0.1.0"
edition = "2021"
publish = false

[dependencies]
anyhow = "1"
env_logger = "*"
git2 = { version = "*", default-features = false }
ignore = "*"
libc = "0.2"
log = "0.4"
ring = "0.17"
russh = "*"
russh-sftp = "*"
serde = { version = "1", features = ["derive"] }
serde_json = "1"
tokio = { version = "1", features = ["full"] }
vte = "*"
