[package]
name = "account_lease"
version = "0.1.0"
edition = "2021"
publish = false

[dependencies]
serde = { version = "1", features = ["derive"] }
serde_json = "1"
serenity = "0.11"
tokio = { version = "1", features = ["macros", "rt-multi-thread", "sync"] }
