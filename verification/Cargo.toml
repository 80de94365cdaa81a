[package]
name = "organizer"
version = "0.1.0"
edition = "2021"
publish = false

[dependencies]
anyhow = "*"
blake3 = "*"
globset = "*"
infer = "*"
serde = { version = "*", features = ["derive"] }
serde_json = "*"
toml = "*"
