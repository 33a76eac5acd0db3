[package]
name = "fac"
version = "0.1.0"
edition = "2021"
publish = false

[dependencies]
clap = "=4.6.7"
multimap = { version = "*", default-features = false }
petgraph = "=0.8.3"
regex = "=1.13.1"
reqwest = { version = "=0.12.28", default-features = false, features = ["blocking", "rustls-tls"] }
semver = "=1.0.28"
serde_json = "=1.0.154"
url = "=2.5.8"
