[package]
name = "asheraflow"
version = "0.1.0"
edition = "2021"
publish = false

[dependencies]
sha1 = "0.10"
flate2 = "1"
hex = "0.4"
regex = "1"
chrono = "0.4"
rand = "0.8"
crossterm = "0.25"
tui = "0.19"
shlex = "1"
