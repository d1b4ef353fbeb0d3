[package]
name = "role_ledger"
version = "0.1.0"
edition = "2021"
publish = false

[dependencies]
rand = "0.9"
serenity = "0.12"
sqlx = { version = "0.8", default-features = false, features = ["runtime-tokio", "postgres", "macros"] }
tokio = { version = "1", default-features = false, features = ["macros", "rt-multi-thread", "signal", "sync", "time"] }
futures = "0.3"
tracing = "0.1"
tracing-subscriber = "0.3"
color-eyre = "0.6"
