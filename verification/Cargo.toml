[package]
name = "p4rs"
version = "0.1.0"
edition = "2021"
publish = false

[dependencies]
num = { version = "=0.4.3", features = ["serde"] }
bitvec = "=1.1.1"
anyhow = "=1.0.104"
colored = "=2.2.0"
clap = { version = "=3.2.25", features = ["derive"] }
serde = { version = "=1.0.229", features = ["derive"] }
quote = "=1.0.47"
proc-macro2 = "=1.0.107"
