[package]
name = "mikrotik"
version = "0.1.0"
edition = "2021"
publish = false

[dependencies]
prettytable-rs = "=0.10.0"
routeros_rust = "*"
structopt = "=0.3.26"
