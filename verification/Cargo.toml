[package]
name = "tuishark"
version = "0.1.0"
edition = "2021"
publish = false

[dependencies]
crossterm = "0.25"
pcap-parser = "*"
tui = "0.19"
