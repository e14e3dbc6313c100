[package]
name = "notifd_core"
version = "0.1.0"
edition = "2021"
publish = false

[dependencies]
chrono = "*"
zbus = { version = "*", features = ["tokio"] }
tokio = { version = "*", features = ["rt-multi-thread", "macros", "sync", "time"] }
