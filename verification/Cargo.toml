[package]
name = "oracle_bridge"
version = "0.1.0"
edition = "2021"
publish = false

[dependencies]
hex = "=0.4.3"
tiny-keccak = { version = "=2.0.2", features = ["keccak"] }

[dev-dependencies]
obi = "=0.0.2"
