[package]
name = "datadog_tracing"
version = "0.1.0"
edition = "2021"
publish = false

[dependencies]
chrono = "*"
rand = "*"
crossbeam-channel = "*"
attohttpc = { version = "*", default-features = false }
num_cpus = "*"
log = "*"
tracing = "*"

[dev-dependencies]
serde_json = "*"
