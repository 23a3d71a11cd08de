[package]
name = "beacon_codec"
version = "0.1.0"
edition = "2021"
publish = false

[dependencies]
clap = "2"
dirs = "2"
slog = "2"
slog-async = "2"
slog-json = "2"
slog-term = "2"
