[package]
name = "tzctl"
version = "0.1.0"
edition = "2021"
publish = false

[dependencies]
anyhow = "1"
base64 = "0.22"
clap = { version = "4", features = ["derive"] }
comfy-table = { version = "7", default-features = false }
directories = "5"
globwalk = "0.9"
owo-colors = "4"
reqwest = { version = "0.12", default-features = false, features = ["json", "rustls-tls"] }
serde = { version = "1", features = ["derive"] }
serde_json = "1"
serde_yaml = "0.9"
tempfile = "3"
thiserror = "1"
time = "0.3"
tokio = { version = "1", features = ["macros", "rt", "rt-multi-thread", "time", "sync", "signal"] }
toml = "0.8"
tracing-subscriber = { version = "0.3", features = ["env-filter", "fmt"] }
uuid = { version = "1", features = ["v4"] }
