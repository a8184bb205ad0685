[package]
name = "nakamoto_net_poll"
version = "0.1.0"
edition = "2021"
publish = false

[dependencies]
crossbeam-channel = "*"
popol = "*"
log = "*"
bitcoin = "0.26"
