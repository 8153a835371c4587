[package]
name = "wget"
version = "0.1.0"
edition = "2021"
publish = false

[dependencies]
url = "2"
scraper = "0.20"
reqwest = { version = "0.12", default-features = false, features = ["stream"] }
tokio = { version = "1", features = ["rt", "rt-multi-thread", "macros", "fs", "io-util", "time"] }
futures-util = "0.3"
chrono = "0.4"
indicatif = "0.17"
clap = { version = "4", features = ["derive"] }
