[package]
name = "fact_rule_event"
version = "0.1.0"
edition = "2021"
publish = false

[dependencies]
anyhow = "1"
bevy = { version = "0.17", default-features = false, features = ["bevy_asset", "bevy_log", "std"] }
ron = "0.10"
serde = { version = "1", features = ["derive"] }
