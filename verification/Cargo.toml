[package]
name = "decon"
version = "0.3.0"
edition = "2021"
publish = false

[dependencies]
regex = "=1.13.1"
tiktoken-rs = "=0.5.9"
unicode-segmentation = "=1.13.3"
serde = { version = "=1.0.229", features = ["derive"] }
serde_json = "=1.0.154"
serde_yaml = "0.9.34"
anyhow = "=1.0.104"
clap = { version = "=4.6.7", features = ["derive"] }
rayon = "=1.12.0"
dashmap = "=6.2.1"
thread_local = "=1.1.10"
flate2 = "=1.1.10"
zstd = "=0.13.4"
bzip2 = "=0.4.4"
xz2 = "=0.1.7"
indicatif = "=0.17.11"
dirs = "=5.0.1"
uuid = { version = "=1.29.0", features = ["v4"] }
mj_io = "=0.1.8"
tokio = { version = "1", features = ["rt-multi-thread", "sync", "net", "macros"] }
axum = "0.7"
