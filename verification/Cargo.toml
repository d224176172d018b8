[package]
name = "kmer_count"
version = "0.1.0"
edition = "2021"
publish = false

[dependencies]
async-recursion = "1"
clap = { version = "4", features = ["derive"] }
log = "0.4"
simplelog = "0.12"
tokio = { version = "1", features = ["fs", "io-util", "macros", "rt-multi-thread"] }
tokio-stream = "0.1"
tokio-tar = "0.3"
