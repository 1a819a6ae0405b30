[package]
name = "kbswitch"
version = "0.1.0"
edition = "2021"

[dependencies]
crossbeam = "*"
evdev-rs = "*"
