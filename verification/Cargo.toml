[package]
name = "hlc_trie"
version = "0.1.0"
edition = "2021"
publish = false

[dependencies]
chrono = "*"
murmur3 = "*"
uuid = { version = "*", features = ["v4"] }
