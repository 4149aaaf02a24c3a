[package]
name = "omi_game"
version = "0.1.0"
edition = "2021"
publish = false

[dependencies]
rand = "=0.8.8"
log = "=0.4.35"
spacetimedb = "=2.7.1"
