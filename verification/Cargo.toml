[package]
name = "aegis"
version = "0.1.0"
edition = "2021"
publish = false

[dependencies]
httparse = "1"
tokio = { version = "1", features = ["net", "io-util", "sync", "rt-multi-thread", "macros"] }
tracing = "0.1"
tracing-subscriber = { version = "0.3", features = ["env-filter"] }
dotenvy = "0.15"
async-trait = "0.1"
