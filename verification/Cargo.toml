[package]
name = "super_core"
version = "0.1.0"
edition = "2021"
publish = false

[dependencies]
chrono = "=0.4.45"
cron = "=0.12.1"
rand = "=0.8.8"
hex = "=0.4.3"
sha2 = "=0.10.9"
uuid = { version = "=1.29.0", features = ["v4"] }
serde = { version = "=1.0.229", features = ["derive"] }
serde_json = "=1.0.154"
tokio = { version = "=1.54.1", features = ["rt-multi-thread", "macros", "fs", "io-util", "io-std", "time", "sync", "process", "signal"] }
hostname = "=0.4.2"
nix = { version = "=0.31.3", features = ["signal", "process"] }
dotenvy = "=0.15.7"
tar = "*"
flate2 = "*"
zip = { version = "*", default-features = false, features = ["deflate"] }
