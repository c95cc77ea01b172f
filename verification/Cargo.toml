[package]
name = "replikv"
version = "0.1.0"
edition = "2021"
publish = false

[dependencies]
bincode = "=1.3.3"
serde = { version = "1", features = ["derive"] }
tokio = { version = "1", features = ["full"] }
structopt = "=0.3.26"
axum = "=0.6.20"
axum-macros = "=0.3.8"
omnipaxos = "*"
omnipaxos_storage = "*"
sled = "*"
commitlog = "*"
