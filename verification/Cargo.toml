[package]
name = "pipeline_stages"
version = "0.1.0"
edition = "2021"
publish = false

[dependencies]
clap = { version = "*", features = ["derive"] }
mongodb = "*"
serde_json = "*"
tokio = { version = "*", features = ["macros", "rt-multi-thread"] }
