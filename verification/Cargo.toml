[package]
name = "statusbar"
version = "0.1.0"
edition = "2021"
publish = false

[dependencies]
chrono = "*"
bytesize = "*"
systemstat = "*"
sensors = "*"
xcb = "*"
