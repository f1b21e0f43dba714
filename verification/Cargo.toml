[package]
name = "kernel"
version = "0.1.0"
edition = "2021"
publish = false

[dependencies]
bootloader = { version = "0.9", features = ["map_physical_memory"] }
x86_64 = { version = "0.14", default-features = false, features = ["instructions"] }
spin = "0.9"
lazy_static = { version = "1.4", features = ["spin_no_std"] }
volatile = "0.2"
uart_16550 = "0.2"
pc-keyboard = "0.5"

[dev-dependencies]
rand = "0.8"
