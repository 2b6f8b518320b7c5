[package]
name = "agents-mon"
version = "0.1.7"
edition = "2021"
publish = false

[dependencies]
libc = "0.2"
regex = "1"
sysinfo = "0.33"
