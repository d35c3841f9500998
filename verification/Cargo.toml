[package]
name = "host_telemetry"
version = "0.1.0"
edition = "2021"
publish = false

[dependencies]
urlencoding = "2"
sysinfo = "0.33"
local-ip-address = "0.6"
reqwest = { version = "0.12", default-features = false, features = ["blocking", "rustls-tls"] }
rss = "2"
readability = "0.3"
serde = { version = "1", features = ["derive"] }
serde_json = "1"
