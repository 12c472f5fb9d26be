[package]
name = "undertow"
version = "0.1.0"
edition = "2021"
publish = false

[dependencies]
alloy-primitives = "0.8"
alloy = { version = "0.8", default-features = false, features = ["std", "providers", "contract", "rpc-types", "reqwest"] }
anyhow = "1"
async-trait = "0.1"
serde = { version = "1", features = ["derive"] }
serde_json = "1"
toml = "0.5"

[dev-dependencies]
alloy-sol-types = "0.8"
