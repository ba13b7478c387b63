[package]
name = "uscr"
version = "0.1.0"
edition = "2021"
publish = false

[dependencies]
anyhow = "*"
clap = { version = "*", features = ["derive"] }
httpdate = "*"
rand = "*"
regex = "*"
reqwest = { version = "*", default-features = false, features = ["json"] }
scraper = "*"
serde = { version = "*", features = ["derive"] }
serde_json = "*"
tokio = { version = "*", features = ["macros", "rt-multi-thread", "time"] }
tokio-postgres = "*"
unicase = "*"
