[package]
name = "vortex"
version = "0.1.0"
edition = "2021"
publish = false

[dependencies]
anyhow = "*"
clap = { version = "*", features = ["derive"] }
crossbeam-utils = "*"
crossterm = "*"
ctrlc = "*"
env_logger = "*"
io-uring = "*"
libc = "*"
log = "*"
rand = "*"
ratatui = "*"
regex = "*"
sysinfo = "*"
thiserror = "*"
tokio = { version = "*", features = ["io-util", "macros", "net", "rt", "rt-multi-thread", "sync", "time"] }
