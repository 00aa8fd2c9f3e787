[package]
name = "boot_core"
version = "0.1.0"
edition = "2021"
publish = false

[dependencies]
bootloader_api = "=0.11.17"
lazy_static = "=1.5.1"
linked_list_allocator = "=0.10.6"
log = "=0.4.34"
x86_64 = { version = "=0.14.13", default-features = false, features = ["instructions"] }
