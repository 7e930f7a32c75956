[package]
name = "install_core"
version = "0.1.0"
edition = "2021"
publish = false

[dependencies]
csv = "1"
sha2 = "0.10"
base16ct = { version = "0.2", features = ["alloc"] }
queues = "1"
os_path = "*"
regex = "1"
bytes = "1"
serde = { version = "1", features = ["derive"] }
tokio = { version = "1", features = ["fs", "io-util", "sync", "rt", "rt-multi-thread", "macros", "process"] }
reqwest = { version = "*", default-features = false }
directories = "*"
human_bytes = "*"
indicatif = "*"
apple-bundle = "*"
async-channel = "*"
async-recursion = "1"
