[package]
name = "clmm_client"
version = "0.1.0"
edition = "2021"
publish = false

[dependencies]
anchor-lang = "*"
anyhow = "1"
base64 = "*"
clap = { version = "4", features = ["derive"] }
configparser = "3"

[dev-dependencies]
sha2 = "0.10"
