[package]
name = "telemetry_dash"
version = "0.1.0"
edition = "2021"
publish = false

[dependencies]
byteorder = "1"
cobs = "*"
failure = "0.1"
serial = "0.4"
termion = "1.5"
tui = "0.6"
unicode-width = "0.1"
