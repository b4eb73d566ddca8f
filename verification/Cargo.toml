[package]
name = "dlock"
version = "0.1.0"
edition = "2021"
publish = false

[dependencies]
quanta = "0.12"
crossbeam-skiplist = "0.1"
crossbeam = "0.8"
clap = { version = "4", features = ["derive"] }
strum = { version = "0.25", features = ["derive"] }
core_affinity = "0.8"
serde = { version = "1", features = ["derive"] }
csv = "1"
linux-futex = "0.2"
thread_local = "1"
