[package]
name = "sightingdb"
version = "0.1.0"
edition = "2021"
publish = false

[dependencies]
regex = "=1.13.1"
base64 = "=0.13.1"
chrono = "=0.4.19"
serde = { version = "=1.0.229", features = ["derive"] }
serde_json = "=1.0.154"
actix-web = { version = "=1.0.9", features = ["ssl"] }
openssl = "=0.10.82"
clap = "=2.34.0"
rust-ini = "=0.13.0"
daemonize = "=0.4.1"
dirs = "=2.0.2"
ansi_term = "=0.12.1"
rustyline = "=6.3.0"
