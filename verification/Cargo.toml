[package]
name = "meshsplat"
version = "0.1.3"
edition = "2021"
publish = false

[dependencies]
anyhow = "1"
clap = { version = "4", features = ["derive"] }
dirs = "*"
env_logger = "0.11"
futures-util = { version = "0.3", default-features = false }
glam = "*"
humantime = "2"
indicatif = "*"
log = "0.4"
rayon = "1"
reqwest = { version = "0.12", default-features = false, features = ["rustls-tls", "stream"] }
serde = { version = "1", features = ["derive"] }
serde_json = "1"
tokio = { version = "1", features = ["fs", "io-util", "macros", "process", "rt-multi-thread"] }
tokio-stream = "0.1"
wgpu = "*"
which = "*"
zip = { version = "*", default-features = false, features = ["deflate"] }
