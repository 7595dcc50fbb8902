[package]
name = "roxy"
version = "0.1.0"
edition = "2021"
publish = false

[dependencies]
bytes = "=0.2.11"
slab = "=0.1.3"
mio = "0.4"
docopt = "=0.6.86"
rustc-serialize = "=0.3.25"
