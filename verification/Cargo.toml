[package]
name = "wispers_access"
version = "0.1.0"
edition = "2021"
publish = false

[dependencies]
anyhow = "=1.0.104"
chrono = "=0.4.45"
clap = { version = "=4.6.7", features = ["derive", "env"] }
daemonize = "=0.5.0"
data-encoding = "=2.11.1"
dirs = "=7.0.0"
http-body-util = "=0.1.5"
hyper = { version = "=1.12.0", features = ["http1", "server", "client"] }
hyper-util = { version = "=0.1.21", features = ["tokio"] }
image = { version = "=0.25.10", default-features = false, features = ["png"] }
libc = "=0.2.191"
qrcode = { version = "=0.14.1", default-features = false, features = ["image"] }
rand = "=0.9.5"
reqwest = { version = "=0.13.5", default-features = false, features = ["json"] }
rusqlite = { version = "=0.40.2", features = ["bundled"] }
rusqlite_migration = "=2.6.0"
serde = { version = "=1.0.229", features = ["derive"] }
serde_json = "=1.0.154"
sha2 = "=0.11.1"
slug = "=0.1.6"
tabwriter = "=1.4.1"
tempfile = "=3.27.0"
tokio = { version = "=1.54.1", features = ["full"] }
tokio-stream = { version = "=0.1.19", features = ["sync", "time"] }
toml = "=1.1.8"
tracing = "=0.1.44"
tracing-appender = "*"
tracing-subscriber = { version = "=0.3.23", features = ["env-filter"] }
uuid = { version = "=1.29.0", features = ["v4"] }
wispers-connect = "=0.17.0"
