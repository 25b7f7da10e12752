[package]
name = "github_issues_rs"
version = "0.1.0"
edition = "2021"
publish = false

[dependencies]
chrono = "0.4"
clap = { version = "4", features = ["derive"] }
colored = "2"
diesel = { version = "2", features = ["sqlite"] }
dirs = "*"
dotenv = "*"
pager = "*"
reqwest = "0.12"
serde = { version = "1", features = ["derive"] }
serde_json = "1"
termimad = "*"
terminal-link = "*"
tokio = { version = "1", features = ["macros", "rt-multi-thread"] }
