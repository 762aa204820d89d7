[package]
name = "bounded_spsc_queue"
version = "0.4.0"
edition = "2021"
publish = false

[dependencies]
criterion = { version = "0.5", default-features = false }
