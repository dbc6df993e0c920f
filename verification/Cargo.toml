[package]
name = "rsm"
version = "0.1.0"
edition = "2021"
publish = false

[dependencies]
json = "*"
time = "*"
sqlite = "*"
native-tls = "*"
bufstream = "*"
clap = "*"
ansi_term = "*"
libc = "*"
mktemp = "*"
