[package]
name = "vsub"
version = "0.1.0"
edition = "2021"
publish = false

[dependencies]
regex = "1"
tui = "0.19"
crossterm = "0.25"
backtrace = "0.3"
