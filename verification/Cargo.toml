[package]
name = "midi_inspector"
version = "0.1.0"
edition = "2021"
publish = false

[dependencies]
crossbeam-queue = "=0.3.14"
truce = { version = "=2.0.2", default-features = false }
truce-core = "=2.0.2"
truce-font = "=2.0.2"
