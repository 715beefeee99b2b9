[package]
name = "minutes_to_gh"
version = "0.1.0"
edition = "2021"
publish = false

[dependencies]
ammonia = "=4.2.1"
anyhow = "*"
chrono = "=0.4.45"
clap = { version = "*", features = ["derive", "env"] }
ego-tree = "=0.11.0"
env_logger = "*"
futures = "*"
governor = "=0.10.4"
irc = "=1.1.0"
log = "*"
octocrab = "=0.44.1"
regex = "*"
reqwest = { version = "*", features = ["json"] }
scraper = "=0.27.0"
serde = { version = "*", features = ["derive"] }
thiserror = "*"
tokio = { version = "*", features = ["macros", "rt-multi-thread"] }
