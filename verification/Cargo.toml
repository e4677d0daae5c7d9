[package]
name = "wasmtime_mmap"
version = "0.1.0"
edition = "2021"
publish = false

[dependencies]
errno = "0.2"
libc = "0.2"
region = "2"
