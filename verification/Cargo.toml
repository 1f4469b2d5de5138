[package]
name = "hackathon_ids"
version = "0.1.0"
edition = "2021"
publish = false

[dependencies]
anyhow = "=1.0.104"
aya = "=0.14.0"
aya-log = "=0.3.0"
bincode = "=2.0.0-rc.3"
burn = { version = "=0.13.2", default-features = false, features = ["std", "ndarray"] }
clap = { version = "=4.6.7", features = ["derive"] }
env_logger = "=0.11.11"
libc = "=0.2.190"
log = "=0.4.34"
tokio = { version = "=1.53.2", features = ["macros", "rt-multi-thread", "signal", "sync", "net", "io-util"] }
tokio-util = { version = "=0.7.19", features = ["rt"] }
