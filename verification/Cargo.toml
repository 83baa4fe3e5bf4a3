[package]
name = "dns_filter"
version = "0.1.0"
edition = "2021"
publish = false

[dependencies]
anyhow = "*"
async-trait = "*"
tokio = { version = "*", features = ["rt-multi-thread", "net", "macros"] }
trust-dns-resolver = "*"
trust-dns-server = "*"
