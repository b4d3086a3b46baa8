[package]
name = "bosync"
version = "0.1.0"
edition = "2021"
rust-version = "1.95"
publish = false

[dependencies]
anyhow = "1"
clap = { version = "4", features = ["derive"] }
cloud-filter = "*"
ctrlc = "3"
fuser = { version = "0.15", default-features = false }
gix = { version = "0.84", default-features = false, features = ["sha1", "revision", "tree-editor", "index", "worktree-mutation", "blocking-network-client", "blocking-http-transport-reqwest-rust-tls"] }
kstring = "=2.0.2"
libc = "0.2"
notify = "8"
serde = { version = "1", features = ["derive"] }
serde_json = "1"
similar = "2"
tracing = "0.1"
tracing-subscriber = { version = "0.3", features = ["env-filter"] }
