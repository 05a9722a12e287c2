[package]
name = "notion_mirror"
version = "0.1.0"
edition = "2021"
publish = false

[dependencies]
anyhow = "=1.0.104"
axum = "=0.8.9"
figment = { version = "=0.10.19", features = ["toml", "yaml", "env"] }
hex = "=0.4.3"
hmac = "=0.13.0"
log = "=0.4.34"
logforth = { version = "=0.30.1", features = ["starter-log"] }
opendal = { version = "=0.59.4", default-features = false, features = ["services-fs", "services-memory"] }
redis = { version = "=1.7.1", default-features = false, features = ["tokio-comp"] }
reqwest = { version = "=0.13.5", default-features = false, features = ["json"] }
serde = { version = "=1.0.229", features = ["derive"] }
serde_json = "=1.0.151"
serde_yaml = "=0.9.34"
sha2 = "=0.11.0"
time = { version = "=0.3.55", features = ["parsing"] }
tokio = { version = "=1.53.2", features = ["rt-multi-thread", "macros", "sync", "time", "net"] }
