[package]
name = "arb_bot"
version = "0.1.0"
edition = "2021"
publish = false

[dependencies]
alloy = { version = "=1.8.3", default-features = false, features = ["std", "providers", "pubsub", "rpc-types", "sol-types", "contract", "signer-local"] }
anyhow = "=1.0.104"
dotenvy = "=0.15.7"
futures = "=0.3.34"
serde = { version = "=1.0.229", features = ["derive"] }
tokio = { version = "=1.54.1", features = ["macros", "rt-multi-thread", "time"] }
toml = "=1.1.8"
