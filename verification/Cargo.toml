[package]
name = "nastalli"
version = "0.1.0"
edition = "2021"
publish = false

[dependencies]
x86_64 = { version = "=0.15.5", default-features = false, features = ["instructions"] }
bootloader_api = "=0.11.17"
lazy_static = "=1.5.1"
spin = "=0.12.3"
pic8259 = "=0.11.0"
linked_list_allocator = "=0.10.6"
