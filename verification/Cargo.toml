[package]
name = "calendar_refresh"
version = "0.1.0"
edition = "2021"
publish = false

[dependencies]
chrono = { version = "=0.4.45", default-features = false, features = ["now"] }
futures = { version = "=0.3.34" }
log = { version = "=0.4.34" }
tokio = { version = "=1.54.1", default-features = false, features = ["rt", "time"] }
