[package]
name = "wl-uinput-proxy"
version = "0.1.0"
edition = "2021"
publish = false

[dependencies]
nix = { version = "=0.30.1", features = ["fs", "ioctl"] }
wl-proxy = { version = "=0.1.5", features = ["all-protocols"] }
xkbcommon-rs = { version = "=0.1.2", features = ["client", "server"] }
