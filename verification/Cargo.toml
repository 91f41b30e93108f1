[package]
name = "geph5_core"
version = "0.1.0"
edition = "2021"
publish = false

[dependencies]
blake3 = "1"
ed25519-dalek = "2"
x25519-dalek = { version = "2", features = ["static_secrets"] }
hex = "0.4"
rand = "0.8"
anyhow = "1"
smol = "2"
smolscale = "0.4"
isocountry = "0.3"
serde = { version = "1", features = ["derive"] }
