[package]
name = "smartdiff"
version = "0.1.0"
edition = "2021"
publish = false

[dependencies]
anyhow = "*"
git2 = "*"
serde = { version = "*", features = ["derive"] }
serde-xml-rs = "*"
