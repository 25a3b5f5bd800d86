[package]
name = "maison"
version = "0.1.0"
edition = "2021"
publish = false

[dependencies]
chrono = "0.4"
serde = { version = "1", features = ["derive"] }
serde_json = "1"
sunrise = "*"
tzfile = "*"
tokio = { version = "1", features = ["rt-multi-thread", "macros", "time", "sync"] }
rumqttc = { version = "*", default-features = false }
futures = "0.3"
backoff = "0.4"
humantime = "2"
clap = { version = "4", features = ["derive"] }
tracing = "0.1"
tracing-subscriber = { version = "0.3", features = ["env-filter"] }
uuid = { version = "1", features = ["v4"] }
bytes = "1"
