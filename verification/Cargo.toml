[package]
name = "txreader"
version = "0.1.0"
edition = "2021"
publish = false

[dependencies]
anyhow = "1"
csv = "1"
env_logger = "*"
futures = { version = "0.3", features = ["thread-pool"] }
log = "0.4"
rand = "0.8"
rayon = "1"
rust_decimal = { version = "1", features = ["serde"] }
serde = { version = "1", features = ["derive"] }
structopt = "0.3"
