[package]
name = "minishell"
version = "0.1.0"
edition = "2021"
publish = false

[dependencies]
regex = "1"
libc = "0.2"
nix = { version = "0.30", features = ["fs", "process", "signal", "term"] }
