[package]
name = "wormhole"
version = "0.1.0"
edition = "2021"
publish = false

[dependencies]
sha2 = "=0.11.0"
getrandom = "=0.2.17"
alloy-primitives = { version = "=1.7.3", features = ["serde"] }
serde = { version = "*", features = ["derive"] }
serde_json = "*"
clap = { version = "*", features = ["derive"] }
anyhow = "*"

[dev-dependencies]
alloy-trie = { version = "=0.9.8", features = ["ethereum"] }
alloy-rlp = "=0.3.16"
