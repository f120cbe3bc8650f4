[package]
name = "vylfs"
version = "0.1.0"
edition = "2021"
publish = false

[dependencies]
clap = "*"
daemonize = "*"
fuser = "*"
libc = "*"
tracing = "*"
tracing-subscriber = { version = "*", features = ["env-filter"] }
