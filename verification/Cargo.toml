[package]
name = "udev_device_manager"
version = "0.1.0"
edition = "2021"
publish = false

[dependencies]
lasso = "*"
seahash = "*"
base64 = "0.13"
slug = "*"
serde_json = "*"
serde_yaml = "*"
toml = "*"
tracing = "*"
clap = { version = "*", features = ["derive", "env"] }
tokio = { version = "*", features = ["full"] }
tokio-udev = "*"
tokio-stream = { version = "*", features = ["net"] }
notify = "*"
signal-hook = "*"
signal-hook-tokio = { version = "*", features = ["futures-v0_3"] }
futures = "*"
tonic = "0.4"
prost = "0.7"
tracing-subscriber = { version = "*", features = ["env-filter", "json"] }
anyhow = "*"
arc-swap = "*"
async-trait = "*"
hyper = "0.14"
tower = "*"
http = "0.2"
pin-project = "*"
