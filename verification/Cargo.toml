[package]
name = "kea"
version = "0.1.0"
edition = "2021"
publish = false

[dependencies]
alpm-rs = "*"
aur-client = "*"
clap = "2"
crossterm = "*"
dirs = "*"
libc = "0.2"
pacman = "*"
serde = { version = "1", features = ["derive"] }
termion = "*"
toml = "*"
