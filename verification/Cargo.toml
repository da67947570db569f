[package]
name = "dns_bench"
version = "0.1.0"
edition = "2021"
publish = false

[dependencies]
anyhow = "1"
futures = "0.3"
hickory-resolver = "0.24"
indicatif = "0.17"
num_cpus = "1"
tokio = { version = "1", features = ["rt-multi-thread", "macros", "time"] }
