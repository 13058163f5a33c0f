[package]
name = "omen_fan"
version = "0.1.0"
edition = "2021"
publish = false

[dependencies]
bisection = "*"
lzma-rs = "*"
nix = { version = "*", features = ["feature", "kmod", "user"] }
serde = { version = "*", features = ["derive"] }
signal-hook = "*"
toml = "*"
