[package]
name = "sni_proxy"
version = "0.1.0"
edition = "2021"
publish = false

[dependencies]
lru = "*"
log = "*"
num_cpus = "*"
tokio = { version = "*", features = ["full"] }
anyhow = "*"
serde = { version = "*", features = ["derive"] }
serde_json = "*"
socket2 = "*"
futures = "*"
chrono = "*"
