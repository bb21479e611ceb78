[package]
name = "unibar"
version = "0.1.0"
edition = "2021"
publish = false

[dependencies]
anyhow = "1"
clap = "2"
dirs = "*"
libc = "0.2"
signal-hook = "0.1"
thiserror = "1"
x11-dl = "2"
