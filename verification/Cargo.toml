[package]
name = "osmon"
version = "0.1.0"
edition = "2021"
publish = false

[dependencies]
anyhow = "=1.0.104"
chrono = "=0.4.45"
env_logger = "=0.11.11"
notify = "=5.0.0-pre.13"
rillrate = "=0.41.0"
shiplift = "=0.7.0"
sysinfo = "=0.39.6"
tokio = { version = "=1.53.2", features = ["full"] }
