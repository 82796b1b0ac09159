[package]
name = "respdiff"
version = "0.1.0"
edition = "2021"
publish = false

[dependencies]
anyhow = "1"
async-std = "1"
byteorder = "1"
clap = { version = "4", features = ["derive"] }
domain = "0.7"
env_logger = "0.10"
futures = "0.3"
lmdb = "0.8"
log = "0.4"
rayon = "1"
serde = { version = "1", features = ["derive"] }
serde_ini = "0.2"
serde_json = "1"
thiserror = "1"
