[package]
name = "mango_exposure"
version = "0.1.0"
edition = "2021"
publish = false

[dependencies]
anyhow = "1"
solana-account-decoder-client-types = { version = "2", default-features = false }
solana-rpc-client = { version = "2", default-features = false }
solana-rpc-client-api = { version = "2", default-features = false }
solana-sdk = { version = "2", default-features = false }
tokio = { version = "1", default-features = false, features = ["macros", "rt-multi-thread"] }
