[package]
name = "cloudcontrol"
version = "0.1.0"
edition = "2021"
publish = false

[dependencies]
quick-xml = "0.37"
uuid = { version = "1", features = ["v4"] }
serde = { version = "1", features = ["derive"] }
serde_json = "1"
serde_yaml = "0.9"
dashmap = "6"
moka = { version = "0.12", features = ["future"] }
tokio = { version = "1", features = ["rt-multi-thread", "macros", "process", "sync", "time", "io-util", "net"] }
actix-web = { version = "4", default-features = false, features = ["macros"] }
actix-ws = "0.3"
futures = "0.3"
reqwest = { version = "0.12", default-features = false }
tera = { version = "1", default-features = false }
tracing = "0.1"
