[package]
name = "comploader"
version = "0.1.0"
edition = "2021"
publish = false

[dependencies]
elf = "0.7"
chrono = "0.4"
