[package]
name = "rimay_type"
version = "0.1.0"
edition = "2021"
publish = false

[dependencies]
anyhow = "*"
config = { version = "*", default-features = false, features = ["toml"] }
ctrlc = "*"
directories = "*"
global-hotkey = "*"
secrecy = { version = "*", features = ["serde"] }
serde = { version = "*", features = ["derive"] }
serde_json = "*"
tokio = { version = "*", features = ["rt", "macros", "sync"] }
tracing = "*"
tracing-subscriber = { version = "*", features = ["env-filter"] }
