[package]
name = "turbo_engine"
version = "0.1.0"
edition = "2021"
publish = false

[dependencies]
glob-match = "0.2"
walkdir = "2"
