[package]
name = "krata"
version = "0.1.0"
edition = "2021"
publish = false

[dependencies]
uuid = { version = "=1.29.0", features = ["v4"] }
smoltcp = "=0.11.0"
ipnetwork = "0.20"
serde = { version = "=1.0.229", features = ["derive"] }
serde_json = "=1.0.154"
serde_yaml = "=0.9.34"
oci-spec = "=0.6.8"
tokio = { version = "=1.54.1", features = ["fs", "rt-multi-thread", "macros", "sync", "time", "process", "io-util"] }
anyhow = "=1.0.104"
async-trait = "=0.1.92"
clap = { version = "=4.6.7", features = ["derive"] }
comfy-table = "=7.2.2"
directories = "=5.0.1"
log = "=0.4.35"
env_logger = "=0.11.10"

[dev-dependencies]
regex = "=1.10.6"
