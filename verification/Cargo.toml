[package]
name = "device_kit"
version = "0.1.0"
edition = "2021"
publish = false

[dependencies]
crossterm = "*"
ratatui = "*"
crossbeam-channel = "*"
memmap2 = "*"
once_cell = "*"
parking_lot = "*"
thiserror = "*"
tracing = "*"
tracing-subscriber = "*"
