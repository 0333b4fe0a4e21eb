[package]
name = "fhc"
version = "0.1.0"
edition = "2021"
publish = false

[dependencies]
clap = { version = "4", features = ["derive"] }
futures = "0.3"
rand = "0.9"
reqwest = { version = "0.12", features = ["native-tls"] }
scraper = "*"
tokio = { version = "1", features = ["macros", "rt-multi-thread", "io-std", "io-util"] }
