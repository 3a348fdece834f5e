[package]
name = "laminar"
version = "0.1.0"
edition = "2021"
publish = false

[dependencies]
async-channel = "1"
async-net = "1"
bevy_tasks = "0.5"
bincode = "1"
crossbeam-channel = "0.5"
dashmap = "4"
futures-timer = "3"
log = "0.4"
rand = "0.7"
rand_pcg = "0.2"
serde = { version = "1", features = ["derive"] }
tracing = "0.1"
