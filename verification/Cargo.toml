[package]
name = "sendme"
version = "0.1.0"
edition = "2021"
publish = false

[dependencies]
anyhow = "1"
data-encoding = "2"
n0-future = "*"
num_cpus = "1"
rand = "0.9"
tokio = { version = "1", features = ["full"] }
tracing = "0.1"
tracing-subscriber = { version = "0.3", features = ["env-filter"] }
walkdir = "2"
