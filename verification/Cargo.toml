[package]
name = "autokey_rs"
version = "0.1.0"
edition = "2021"
publish = false

[dependencies]
x11 = "*"
libc = "*"
nix = { version = "*", features = ["signal", "process"] }
json5 = "*"
serde = { version = "*", features = ["derive"] }
xdg = "*"
log = "*"
env_logger = "*"
syslog = "*"
lazy_static = "*"
