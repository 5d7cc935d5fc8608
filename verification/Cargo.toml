[package]
name = "pitbot"
version = "0.1.0"
edition = "2021"
publish = false

[dependencies]
clokwerk = "0.3"
serde = { version = "1", features = ["derive"] }
serde_yaml = "0.8"
serenity = "0.8"
