[package]
name = "block_tps"
version = "0.1.0"
edition = "2021"
publish = false

[dependencies]
clap = { version = "4", features = ["derive"] }
subxt = { version = "0.37" }
tokio = { version = "1", features = ["macros", "rt-multi-thread"] }
