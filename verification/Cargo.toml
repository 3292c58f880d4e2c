[package]
name = "astronote"
version = "0.1.0"
edition = "2021"
publish = false

[dependencies]
anyhow = "*"
chrono = "*"
clap = { version = "*", features = ["derive"] }
colored = "*"
figment = { version = "*", features = ["toml"] }
serde = { version = "*", features = ["derive"] }
sqlx = { version = "*", default-features = false, features = ["runtime-tokio", "sqlite"] }
tokio = { version = "*", features = ["rt-multi-thread", "macros"] }
