[package]
name = "depo_core"
version = "0.1.0"
edition = "2021"
publish = false

[dependencies]
semver = "1"
git2 = { version = "*", default-features = false }
clap = { version = "*", features = ["derive"] }
dialoguer = "*"
dotenv = "*"
tempfile = "*"
serde = { version = "*", features = ["derive"] }
serde_json = "*"
reqwest = { version = "*", default-features = false, features = ["json", "blocking"] }
tokio = { version = "*", features = ["rt", "rt-multi-thread", "macros"] }
anyhow = "*"
