[package]
name = "espcan_br"
version = "0.1.0"
edition = "2021"
publish = false

[dependencies]
embassy-executor = "=0.9.1"
embassy-futures = "=0.1.2"
embassy-net = { version = "0.8", features = ["tcp", "udp", "dns", "dhcpv4", "medium-ethernet", "proto-ipv4", "multicast"] }
embassy-sync = "=0.7.2"
embassy-time = "=0.5.1"
embedded-can = "=0.4.1"
embedded-io-async = "=0.7.0"
embedded-storage = "=0.3.2"
embedded-tls = { version = "=0.19.0", default-features = false }
heapless = "=0.8.0"
log = "=0.4.35"
nb = "=1.1.0"
p256 = { version = "=0.13.2", features = ["ecdsa"] }
rand_core = "=0.6.4"
sha2 = "=0.10.9"
static_cell = "=2.1.1"
