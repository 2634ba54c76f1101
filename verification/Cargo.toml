[package]
name = "kernel_core"
version = "0.1.0"
edition = "2021"
publish = false

[dependencies]
crossbeam-queue = "=0.3.14"
x86_64 = { version = "=0.14.13", default-features = false, features = ["instructions"] }
pc-keyboard = "=0.9.0"
pic8259 = { version = "=0.10.4", default-features = false }
spin = "=0.12.3"
lazy_static = "=1.5.1"
