[package]
name = "networth_db"
version = "0.1.0"
edition = "2021"
publish = false

[dependencies]
uuid = { version = "1", features = ["v4"] }
regex = "1"
infer = "*"
calamine = "*"
lopdf = "*"
chrono = "0.4"
rust_decimal = "1"
serde = { version = "1", features = ["derive"] }
sea-orm = { version = "1.1", default-features = false, features = ["macros", "with-uuid", "with-chrono", "with-rust_decimal"] }
tokio = { version = "1", features = ["rt", "macros"] }
dotenvy = "0.15"
tracing = "0.1"
