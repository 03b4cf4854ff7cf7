[package]
name = "crabcache"
version = "0.1.0"
edition = "2021"
publish = false

[dependencies]
bytes = "=1.12.1"
serde = { version = "=1.0.229", features = ["derive"] }
serde_json = "=1.0.154"
thiserror = "=1.0.69"
prost = "=0.13.5"
memchr = "=2.8.3"
base64 = "=0.22.1"
chrono = "=0.4.45"
ahash = { version = "0.8", default-features = false, features = ["std"] }
num_cpus = "1"
