[package]
name = "tiny_os"
version = "0.1.0"
edition = "2021"
publish = false

[dependencies]
hashbrown = "0.14"
xmas-elf = "*"
virtio-input-decoder = "*"
