[package]
name = "tfocus"
version = "0.1.0"
edition = "2021"
publish = false

[dependencies]
clap = { version = "4", features = ["derive"] }
crossterm = "*"
ctrlc = "3"
env_logger = "*"
log = "0.4"
nix = { version = "*", features = ["signal"] }
regex = "1"
thiserror = "*"
