[package]
name = "unleash_api_client"
version = "0.1.0"
edition = "2021"
publish = false

[dependencies]
murmur3 = "*"
rand = "*"
hostname = "*"
uuid = { version = "*", features = ["v4"] }
semver = "*"
serde = { version = "*", features = ["derive"] }
serde_json = "*"
chrono = "*"
