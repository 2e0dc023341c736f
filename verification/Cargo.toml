[package]
name = "port_scanner"
version = "0.1.0"
edition = "2021"
publish = false

[dependencies]
anyhow = "1"
clap = { version = "4", features = ["derive"] }
dns-lookup = "2"
libc = "0.2"
mio = { version = "0.8", features = ["os-poll", "os-ext"] }
pnet = "0.33"
rand = "0.8"
socket = "*"
