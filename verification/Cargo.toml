[package]
name = "notion_agent"
version = "0.1.0"
edition = "2021"
publish = false

[dependencies]
cidr-utils = "0.5"
serde_json = "1"
tokio = { version = "1", features = ["net", "time", "sync", "rt", "rt-multi-thread", "macros"] }
reqwest = { version = "0.11", default-features = false, features = ["json"] }
