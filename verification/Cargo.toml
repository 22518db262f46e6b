[package]
name = "ason"
version = "1.0.0"
edition = "2021"
publish = false

[dependencies]
serde = "1"
chrono = "0.4"
