[package]
name = "xtask"
version = "0.1.0"
edition = "2021"
publish = false

[dependencies]
anyhow = "=1.0.104"
clap = { version = "=4.6.7", features = ["derive", "env"] }
octocrab = "=0.47.1"
prettyplease = "=0.2.37"
pulldown-cmark = { version = "=0.13.6", default-features = false }
quote = "=1.0.47"
regex = "=1.13.1"
reqwest = { version = "=0.12.28", default-features = false, features = ["rustls-tls"] }
serde = { version = "=1.0.229", features = ["derive"] }
syn = { version = "=2.0.119", features = ["full"] }
tokio = { version = "=1.54.1", features = ["macros", "rt-multi-thread"] }
toml = "=1.2.1"
walkdir = "=2.5.0"
