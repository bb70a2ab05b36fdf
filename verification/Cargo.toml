[package]
name = "ert"
version = "0.1.0"
edition = "2021"
publish = false

[dependencies]
bus = "=2.4.1"
crossbeam-channel = "=0.5.17"
debug_stub_derive = "=0.3.0"
libc = "=0.2.191"
log = "=0.4.34"
nix = "=0.31.3"
wpilib = "=0.4.0"
