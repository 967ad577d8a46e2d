[package]
name = "signature_accumulator"
version = "0.1.0"
edition = "2021"
publish = false

[dependencies]
fake_clock = "*"
itertools = "*"
maidsafe_utilities = "*"
rust_sodium = "*"
serde = { version = "1", features = ["derive"] }
tiny-keccak = "1"

[dev-dependencies]
rand = "0.8"
