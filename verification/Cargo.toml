[package]
name = "rustyvisor"
version = "0.1.0"
edition = "2021"
publish = false

[dependencies]
log = "0.4"
lazy_static = "1"
spin = "*"
bare-metal = "*"
buddy_system_allocator = "*"
