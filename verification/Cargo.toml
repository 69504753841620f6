[package]
name = "michelangelo"
version = "0.1.0"
edition = "2021"
publish = false

[dependencies]
descartes = "=0.1.20"
lyon_tessellation = "=0.11.0"
