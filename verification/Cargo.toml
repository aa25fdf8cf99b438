[package]
name = "rperf"
version = "0.1.0"
edition = "2021"
publish = false

[dependencies]
cfg-if = "1"
chashmap = "2"
chrono = "0.4"
clap = { version = "4", features = ["derive"] }
core_affinity = "0.8"
ctrlc2 = "*"
env_logger = "*"
lazy_static = "1"
log = "0.4"
mio = { version = "0.8", features = ["os-poll", "net"] }
nix = { version = "*", features = ["socket"] }
serde = { version = "1", features = ["derive"] }
serde_json = "1"
simple-error = "0.3"
uuid = { version = "1", features = ["v4"] }
