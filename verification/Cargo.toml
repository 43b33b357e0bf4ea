[package]
name = "kernel_memory"
version = "0.1.0"
edition = "2021"
publish = false

[dependencies]
multiboot2 = "*"
spin = "0.9"
volatile = "0.2"
x86 = "0.52"
