[package]
name = "tedge-dot"
version = "0.2.0"
edition = "2021"
publish = false

[dependencies]
async-opcua = { version = "*", features = ["client"] }
async-trait = "0.1"
clap = { version = "4", features = ["derive"] }
futures = "0.3"
rumqttc = { version = "0.24", default-features = false }
serde = { version = "1", features = ["derive"] }
serde_json = "1"
time = { version = "0.3", features = ["formatting"] }
tokio = { version = "1", features = ["full"] }
toml = "0.8"
toml_edit = "0.22"
tracing = "0.1"
tracing-subscriber = { version = "0.3", features = ["env-filter"] }
