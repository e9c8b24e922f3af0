[package]
name = "agent_memory"
version = "0.1.0"
edition = "2021"
publish = false

[dependencies]
agent-twitter-client = "*"
anyhow = "1"
async-trait = "0.1"
chrono = "0.4"
clap = { version = "4", features = ["derive"] }
colored = "2"
dotenv = "0.15"
log = "0.4"
reqwest = { version = "0.11", features = ["json"] }
rustyline = "*"
scraper = "*"
serde = { version = "1", features = ["derive"] }
serde_json = "1"
thiserror = "1"
tokio = { version = "1", features = ["full"] }
tokio-rusqlite = "*"
url = "2"
urlencoding = "2"
