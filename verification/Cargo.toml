[package]
name = "folder_sync"
version = "0.1.0"
edition = "2021"
publish = false

[dependencies]
futures = "0.3"
lazy_static = "1"
log = "0.4"
parking_lot = "0.12"
tokio = { version = "1", default-features = false, features = ["rt", "sync", "time"] }
tracing = "0.1"
tracing-appender = "*"
tracing-bunyan-formatter = "*"
tracing-log = "*"
tracing-subscriber = { version = "*", features = ["env-filter", "json"] }
