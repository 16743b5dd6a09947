[package]
name = "pgpool"
version = "0.1.0"
edition = "2021"
publish = false

[dependencies]
arc-swap = "1"
async-trait = "0.1"
bb8 = "0.8"
bytes = "1"
chrono = "0.4"
log = "0.4"
once_cell = "1"
parking_lot = "0.12"
rand = "0.8"
tokio = { version = "1", features = ["time"] }
