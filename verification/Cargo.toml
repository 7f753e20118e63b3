[package]
name = "lightning-rapid-gossip-sync"
version = "0.1.0"
edition = "2021"
publish = false

[dependencies]
lightning = { version = "0.0.111" }
bitcoin = { version = "0.29.0", default-features = false, features = ["std"] }

[dev-dependencies]
lightning = { version = "0.0.111", features = ["_test_utils"] }
