[package]
name = "va_midend"
version = "0.1.0"
edition = "2021"
publish = false

[dependencies]
ahash = "=0.8.12"
anyhow = "=1.0.104"
indexmap = "=1.9.3"
