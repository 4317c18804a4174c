[package]
name = "netsnmp_agent"
version = "0.1.0"
edition = "2021"
publish = false

[dependencies]
chrono = "0.4"
sysinfo = "0.33"
tokio = { version = "1", features = ["net", "io-util", "sync", "rt", "rt-multi-thread", "time"] }
tracing = "0.1"
