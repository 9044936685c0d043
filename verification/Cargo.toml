[package]
name = "lc3_vm"
version = "0.1.0"
edition = "2021"
publish = false

[dependencies]
nix = { version = "=0.26.4", features = ["poll", "time"] }
termios = "=0.3.3"
signal-hook = "=0.4.5"
