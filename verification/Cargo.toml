[package]
name = "rustube"
version = "0.1.0"
edition = "2021"
publish = false

[dependencies]
regex = "1"
url = "2"
reqwest = { version = "0.11", features = ["cookies"] }
serde = { version = "1", features = ["derive"] }
serde_json = "1"
serde_qs = "0.8"
tokio = { version = "1", features = ["macros", "rt-multi-thread"] }
derive_more = "0.99"
derivative = "2"
