[package]
name = "wait_timer"
version = "0.1.0"
edition = "2021"
publish = false

[dependencies]
console = "=0.16.6"
indicatif = "=0.16.2"
thiserror = "=1.0.69"
