[package]
name = "ascii_terminal"
version = "0.1.0"
edition = "2021"
publish = false

[dependencies]
sark_grids = "=0.7.0"
flate2 = "=1.1.10"
byteorder = "=1.5.0"
bevy = { version = "=0.17.3", default-features = false, features = ["bevy_color"] }
