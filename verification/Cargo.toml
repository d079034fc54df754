[package]
name = "batch_os"
version = "0.1.0"
edition = "2021"
publish = false

[dependencies]
riscv = "=0.14.0"
log = "=0.4.35"
lazy_static = "=1.5.1"
