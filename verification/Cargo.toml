[package]
name = "nexpack"
version = "0.1.0"
edition = "2021"
publish = false

[dependencies]
blake3 = "1"
ciborium = "0.2"
hex = "0.4"
flate2 = "1"
serde = { version = "1", features = ["derive"] }
serde_json = "1"
toml = "0.8"
sigstore-bundle = "*"
sigstore-trust-root = "*"
sigstore-types = "*"
sigstore-verify = "*"
tracing = "0.1"
tracing-subscriber = { version = "0.3", features = ["env-filter"] }
anyhow = "1"
clap = { version = "4", features = ["derive"] }
ureq = { version = "2", features = ["json"] }
libc = "0.2"
