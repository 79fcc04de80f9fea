[package]
name = "rift_mixer"
version = "0.1.0"
edition = "2021"
publish = false

[dependencies]
anchor-lang = "=0.31.2"

[dev-dependencies]
tiny-keccak = { version = "=2.0.2", features = ["keccak"] }
