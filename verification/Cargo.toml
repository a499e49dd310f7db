[package]
name = "ksrs"
version = "0.1.0"
edition = "2021"
publish = false

[dependencies]
bincode = "1.3"
chrono = "0.4"
clap = "3"
open = "*"
proc-lock = "*"
serde = { version = "1", features = ["derive"] }
term-table = "1"
