[package]
name = "proc_monitor"
version = "0.1.0"
edition = "2021"
publish = false

[dependencies]
chrono = "0.4"
serde = { version = "1", features = ["derive"] }
sysinfo = "0.33"
toml = "0.8"
