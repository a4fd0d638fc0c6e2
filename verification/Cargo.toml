[package]
name = "ledger_emulator"
version = "0.1.0"
edition = "2021"
publish = false

[dependencies]
ahash = "=0.8.12"
async-trait = "=0.1.92"
borsh = { version = "=1.8.1", features = ["derive"] }
futures = "=0.3.34"
serde = { version = "=1.0.229", features = ["derive"] }
solana-program = "=1.18.26"
thiserror = "=2.0.21"
workflow-log = "=0.19.0"
workflow-rpc = "=0.19.0"
