[package]
name = "unifi_adopt"
version = "0.1.0"
edition = "2021"
publish = false

[dependencies]
tokio = { version = "*", features = ["rt-multi-thread", "process", "net", "time", "sync", "macros"] }
ssh2 = "*"
get_if_addrs = "*"
