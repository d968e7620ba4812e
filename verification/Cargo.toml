[package]
name = "xanal"
version = "0.1.0"
edition = "2021"
publish = false

[dependencies]
base64 = "=0.13.1"
clap = { version = "=3.2.25", features = ["derive"] }
console = "=0.16.6"
flexi_logger = "=0.22.6"
hex = "=0.4.3"
indicatif = "=0.16.2"
log = "=0.4.34"
simple-error = "=0.3.3"
tinyvec = { version = "=1.13.3", features = ["alloc"] }
