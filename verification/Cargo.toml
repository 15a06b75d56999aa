[package]
name = "cranker_expense"
version = "0.1.0"
edition = "2021"
publish = false

[dependencies]
anyhow = "*"
clap = { version = "*", features = ["derive"] }
futures = "*"
pinocchio = "*"
solana-commitment-config = "*"
solana-program-log = "*"
solana-pubkey = "*"
solana-signature = "*"
tokio = { version = "*", features = ["macros", "rt-multi-thread"] }
