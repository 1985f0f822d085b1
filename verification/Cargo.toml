[package]
name = "aether"
version = "0.1.0"
edition = "2021"
publish = false

[dependencies]
x86_64 = { version = "=0.15.5", default-features = false, features = ["instructions"] }
noto-sans-mono-bitmap = { version = "=0.3.2", features = ["regular", "size_20"] }
pc-keyboard = "=0.9.0"
spin = "=0.12.3"
limine = "=0.6.5"
raw-cpuid = "=11.6.0"
uart_16550 = "=0.9.0"
lazy_static = { version = "=1.5.1", features = ["spin_no_std"] }
buddy_system_allocator = "=0.13.0"
acpi = "=6.1.1"
