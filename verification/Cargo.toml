[package]
name = "minesweeper"
version = "0.1.0"
edition = "2021"
publish = false

[dependencies]
rand = "*"
win32console = "*"
wincolor = "*"
device_query = "*"
active-win-pos-rs = "*"
