[package]
name = "one_sat_ordinals"
version = "0.1.0"
edition = "2021"
publish = false

[dependencies]
bitcoinsv = "*"
bytes = "1"
clap = { version = "4", features = ["derive"] }
log = "0.4"
simple_logger = "*"

[dev-dependencies]
hex = "0.4"
