[package]
name = "mc_launcher"
version = "0.1.0"
edition = "2021"
publish = false

[dependencies]
reqwest = { version = "*", features = ["json"] }
serde = { version = "*", features = ["derive"] }
serde_json = "*"
tokio = { version = "*", features = ["full"] }
toml = "*"
