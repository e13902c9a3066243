[package]
name = "kernel_core"
version = "0.1.0"
edition = "2021"
publish = false

[dependencies]
x86_64 = { version = "0.15", default-features = false, features = ["instructions"] }
bootloader = { version = "0.9", features = ["map_physical_memory"] }
log = { version = "0.4", default-features = false }
