[package]
name = "kseqi"
version = "0.1.0"
edition = "2021"
publish = false

[dependencies]
x11-dl = "*"
libc = "*"
mio = { version = "*", features = ["os-poll", "os-ext"] }
log = "*"
env_logger = "*"
