[package]
name = "cryo"
version = "0.1.0"
edition = "2021"
publish = false

[dependencies]
anstyle = "*"
clap = { version = "=4.6.7", features = ["derive"] }
ethers = { version = "=2.0.14", default-features = false }
parquet = { version = "*", default-features = false }
tokio = { version = "=1.53.2", features = ["macros", "rt-multi-thread", "sync", "time"] }
