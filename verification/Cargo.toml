[package]
name = "db_core"
version = "0.1.0"
edition = "2021"
publish = false

[dependencies]
rand = "0.8"
flume = "0.11"
dashmap = "5"
parking_lot = "0.12"
