[package]
name = "rollup_core"
version = "0.2.0"
edition = "2021"
publish = false

[dependencies]
sha2 = "=0.10.9"
sha3 = "0.10"
flate2 = "=1.1.10"
serde = { version = "=1.0.229", features = ["derive"] }
serde_json = "=1.0.154"
bincode = "=1.3.3"
anyhow = "=1.0.104"
log = "=0.4.35"
env_logger = "=0.11.11"
chrono = "=0.4.45"
jsonwebtoken = "=9.3.1"
lru = "=0.12.5"
governor = "=0.6.3"
dashmap = "=6.2.1"
parking_lot = "=0.12.5"
uuid = { version = "=1.29.0", features = ["v4"] }
num_cpus = "1"
async-channel = "2"
