[package]
name = "hm"
version = "0.1.0"
edition = "2021"
publish = false

[dependencies]
anyhow = "1"
async-trait = "0.1"
bollard = "0.18"
clap = { version = "4", features = ["derive"] }
dialoguer = "0.11"
dirs = "5"
futures = "0.3"
futures-util = "0.3"
hex = "0.4"
indicatif = "0.17"
owo-colors = "4"
rand = "0.8"
rusqlite = { version = "0.32", features = ["bundled"] }
serde = { version = "1", features = ["derive"] }
serde_json = "1"
sha1 = "0.10"
sha2 = "0.10"
tokio = { version = "1", features = ["full"] }
tokio-util = "0.7"
toml = "0.8"
tracing = "0.1"
tracing-indicatif = "0.3"
uuid = { version = "1", features = ["v4"] }
which = "6"

[dev-dependencies]
tempfile = "3"
