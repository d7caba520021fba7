[package]
name = "capellix"
version = "0.1.0"
edition = "2021"
publish = false

[dependencies]
anyhow = "=1.0.104"
bytes = "=1.12.1"
clap = { version = "=4.6.7", features = ["derive"] }
env_logger = "=0.11.11"
futures = "=0.3.34"
hidapi = { version = "=2.6.7", default-features = false, features = ["linux-native-basic-udev"] }
inotify = "=0.11.5"
log = "=0.4.34"
tokio = { version = "=1.53.2", features = ["rt-multi-thread", "net", "signal", "fs", "sync", "time", "io-util", "macros"] }
tokio-stream = { version = "=0.1.19", features = ["net", "signal", "sync"] }
tokio-util = { version = "=0.7.19", features = ["codec", "net"] }
