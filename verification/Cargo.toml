[package]
name = "fragments-core"
version = "0.1.0"
edition = "2021"
publish = false

[dependencies]
slotmap = "=1.1.1"
parking_lot = "0.12"
futures = "0.3"
once_cell = "1"
