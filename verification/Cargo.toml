[package]
name = "boot_core"
version = "0.1.0"
edition = "2021"
publish = false

[dependencies]
goblin = "=0.10.7"
bit_field = "=0.10.3"
x86_64 = { version = "=0.15.5", default-features = false, features = ["instructions"] }
uefi = { version = "=0.28.0", features = ["alloc"] }
uefi-services = { version = "=0.25.0", default-features = false, features = ["logger"] }
log = "=0.4.34"
