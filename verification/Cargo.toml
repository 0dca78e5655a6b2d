[package]
name = "timespoof"
version = "0.1.0"
edition = "2021"
publish = false

[dependencies]
ctor = "*"
detour = "*"
dll-syringe = "*"
lazy_static = "1"
winapi = { version = "0.3", features = ["minwindef", "libloaderapi"] }
