[package]
name = "rusty_irc"
version = "0.1.0"
edition = "2021"
publish = false

[dependencies]
mio = "0.5"
rust-ini = "*"
