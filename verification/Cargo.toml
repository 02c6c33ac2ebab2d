[package]
name = "room_migration"
version = "0.1.0"
edition = "2021"
publish = false

[dependencies]
anyhow = "=1.0.104"
json = "=0.12.4"
matrix-sdk = { version = "=0.6.2", default-features = false, features = ["native-tls"] }
tokio = { version = "=1.54.1", features = ["macros", "rt-multi-thread"] }
tracing-subscriber = "=0.3.23"
