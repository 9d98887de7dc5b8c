[package]
name = "rusty_finance"
version = "0.1.0"
edition = "2021"
publish = false

[dependencies]
anyhow = "1"
chrono = "0.4"
clap = { version = "4", features = ["derive"] }
clap_complete = "4"
clap-verbosity-flag = "*"
comfy-table = "7"
dialoguer = "*"
env_logger = "*"
log = "0.4"
owo-colors = "*"
rust_decimal = "1"
thiserror = "*"
