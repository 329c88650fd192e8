[package]
name = "okina_bot_kotoba_web"
version = "0.1.0"
edition = "2021"
publish = false

[dependencies]
serde_json = "1"
regex = "1"
lazy_static = "1"
tokio = { version = "1", features = ["macros", "rt-multi-thread"] }
reqwest = "0.11"
serenity = "0.10"
