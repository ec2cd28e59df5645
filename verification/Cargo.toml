[package]
name = "huseynos"
version = "0.1.0"
edition = "2021"
publish = false

[dependencies]
spin = "*"
limine = "*"
linked_list_allocator = "*"
uart_16550 = "*"
fatfs = "*"
fscommon = "*"
