[package]
name = "nomos_vm"
version = "0.1.0"
edition = "2021"
publish = false

[dependencies]
wasmer = "=4.3.7"

[dev-dependencies]
bincode = "1"
