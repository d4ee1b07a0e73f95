[package]
name = "subblock_executor"
version = "0.1.0"
edition = "2021"
publish = false

[dependencies]
alloy-consensus = { version = "=1.8.3", default-features = false, features = ["std", "k256"] }
alloy-eips = { version = "=1.8.3", default-features = false, features = ["std"] }
alloy-hardforks = { version = "=0.4.11", default-features = false }
alloy-primitives = { version = "=1.7.3", default-features = false, features = ["std"] }
alloy-rlp = "=0.3.17"
alloy-trie = { version = "=0.9.9", default-features = false, features = ["std"] }
bincode = "=1.3.3"
clap = { version = "4", features = ["derive"] }
dotenv = "0.15"
eyre = "0.6"
kzg-rs = "=0.2.9"
revm-database-interface = { version = "=8.0.5", default-features = false, features = ["std"] }
revm-state = { version = "=8.1.1", default-features = false, features = ["std"] }
serde = { version = "1", features = ["derive"] }
sha2 = "=0.10.9"
tokio = { version = "1", features = ["rt-multi-thread", "macros", "time"] }
tracing = "0.1"
tracing-subscriber = "0.3"
url = "=2.5.8"
