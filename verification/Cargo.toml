[package]
name = "event_loop"
version = "0.1.0"
edition = "2021"
publish = false

[dependencies]
anyhow = "1"
boa_engine = "0.21"
boa_runtime = "0.21"
pollster = "0.4"
