[package]
name = "khaos_control"
version = "0.1.0"
edition = "2021"
publish = false

[dependencies]
anyhow = "1"
deadpool-redis = "*"
serde = { version = "1", features = ["derive"] }
tokio = { version = "1", features = ["macros", "rt-multi-thread"] }
toml = "*"
twilight-cache-inmemory = "0.16"
twilight-gateway = "0.16"
twilight-http = "0.16"
twilight-model = "0.16"
