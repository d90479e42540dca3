[package]
name = "segment_router"
version = "0.1.0"
edition = "2021"
publish = false

[dependencies]
hyper = { version = "0.11", default-features = false }
