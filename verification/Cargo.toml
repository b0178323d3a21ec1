[package]
name = "langgraph"
version = "0.1.0"
edition = "2021"
publish = false

[dependencies]
petgraph = "=0.6.5"
uuid = { version = "=1.29.0", features = ["v4"] }
serde = { version = "=1.0.229", features = ["derive"] }
serde_json = "=1.0.154"
tokio = { version = "=1.54.1", features = ["rt", "rt-multi-thread", "sync", "time", "macros"] }
prometheus = { version = "=0.13.4", default-features = false }
lazy_static = "=1.5.1"
thiserror = "=1.0.69"
async-trait = "=0.1.92"
futures = "=0.3.34"
regex = "=1.13.1"
sha2 = "=0.10.9"
argon2 = "=0.5.3"
password-hash = { version = "=0.5.0", features = ["getrandom"] }
jsonwebtoken = "9"
chrono = "0.4"
