[package]
name = "flyline"
version = "0.1.0"
edition = "2021"
publish = false

[dependencies]
skim = { version = "=3.6.2", default-features = false }
unicode-width = "0.2"
libc = "0.2"
ratatui = { version = "0.30", default-features = false }
nix = { version = "*", features = ["process", "signal"] }
termina = "*"
log = "0.4"
serde = { version = "1", features = ["derive"] }
