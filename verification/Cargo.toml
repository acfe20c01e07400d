[package]
name = "ansiterm"
version = "0.1.0"
edition = "2021"
publish = false

[dependencies]
libc = "=0.2.190"
nix = "=0.24.3"
