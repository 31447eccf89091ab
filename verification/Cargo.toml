[package]
name = "payment_engine"
version = "0.1.0"
edition = "2021"
publish = false

[dependencies]
csv = "1"
memchr = "2"
tokio = { version = "1", features = ["rt-multi-thread", "macros", "sync"] }
