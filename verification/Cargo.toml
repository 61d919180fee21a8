[package]
name = "statement_runner"
version = "0.1.0"
edition = "2021"
publish = false

[dependencies]
anyhow = "*"
clap = { version = "*", features = ["derive"] }
surrealdb = "*"
tokio = { version = "*", features = ["macros", "rt-multi-thread"] }
