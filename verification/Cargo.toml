[package]
name = "ingestion_completer"
version = "0.1.0"
edition = "2021"
publish = false

[dependencies]
reedline = "*"
nu-ansi-term = "*"
