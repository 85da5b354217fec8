[package]
name = "bbtop"
version = "0.1.0"
edition = "2021"
publish = false

[dependencies]
axum = "*"
axum-prometheus = "*"
libc = "0.2"
metrics = "*"
rdkafka = "*"
tokio = { version = "1", features = ["macros", "net", "rt-multi-thread"] }
