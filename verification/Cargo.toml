[package]
name = "pdu"
version = "0.1.0"
edition = "2021"
publish = false

[dependencies]
ansi_term = "0.12"
anyhow = "1"
clap = { version = "4", features = ["derive"] }
env_logger = "0.11"
hex = "0.4"
indicatif = "0.17"
itertools = "0.13"
log = "0.4"
miniz_oxide = "0.8"
num_cpus = "1"
parity-scale-codec = { version = "3", features = ["derive"] }
scale-info = "2"
serde = { version = "1", features = ["derive"] }
serde_json = "1"
sp-core = "*"
sp-crypto-hashing = "0.1"
termtree = "0.5"
tokio = { version = "1", features = ["rt-multi-thread", "macros", "sync", "time"] }
