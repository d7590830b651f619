[package]
name = "recon"
version = "0.1.0"
edition = "2021"
publish = false

[dependencies]
anyhow = "1"
async-trait = "0.1"
futures = "0.3"
tokio = { version = "1", default-features = false, features = ["time"] }
