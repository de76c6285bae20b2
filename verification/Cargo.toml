[package]
name = "cql-stress-settings"
version = "0.1.0"
edition = "2021"
publish = false

[dependencies]
anyhow = "=1.0.104"
regex = "=1.13.1"
scylla = { version = "=1.9.0", features = ["unstable-strong-consistency"] }
