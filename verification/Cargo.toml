[package]
name = "repo_digest"
version = "0.1.0"
edition = "2021"
publish = false

[dependencies]
anyhow = "=1.0.104"
futures = "=0.3.34"
gix = { version = "=0.88.0", features = ["blocking-network-client", "worktree-mutation"] }
globset = "=0.4.20"
serde = { version = "=1.0.229", features = ["derive"] }
tiktoken-rs = "=0.12.1"
tokio = { version = "=1.53.2", features = ["rt", "rt-multi-thread", "macros", "fs"] }
url = "=2.5.8"
walkdir = "=2.5.0"
