[package]
name = "nova"
version = "0.1.0"
edition = "2021"
publish = false

[dependencies]
noise = "*"
rand = "0.9"
rand_chacha = "0.9"
serde_json = "1"
clap = "*"
crossterm = "*"
ratatui = "*"
thiserror = "*"
