[package]
name = "lihaaf"
version = "0.1.0"
edition = "2021"
publish = false

[dependencies]
toml = "=0.8.23"
serde = { version = "=1.0.229", features = ["derive"] }
serde_json = "=1.0.154"
clap = { version = "=4.6.7", features = ["derive"] }
syn = { version = "=2.0.119", features = ["full", "visit", "parsing"] }
proc-macro2 = { version = "=1.0.107", features = ["span-locations"] }
