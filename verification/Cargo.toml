[package]
name = "perf_kernel"
version = "0.1.0"
edition = "2021"
publish = false

[dependencies]
bit_field = "=0.10.3"
x86_64 = { version = "=0.15.5", default-features = false, features = ["instructions"] }
log = "=0.4.35"
spin = "=0.12.3"
smoltcp = "=0.7.5"
raw-cpuid = "=11.6.0"
multiboot2 = "=0.28.0"
pc-keyboard = "=0.9.0"
