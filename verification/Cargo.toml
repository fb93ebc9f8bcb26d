[package]
name = "zynqmp"
version = "0.1.1"
edition = "2021"
publish = false

[dependencies]
aarch64-cpu = "=11.2.0"
arbitrary-int = "=1.3.0"
clap = { version = "=4.6.7", features = ["derive"] }
embedded-io = "=0.6.1"
libc = "=0.2.191"
similar = "=2.7.0"
wait-timeout = "=0.2.1"
