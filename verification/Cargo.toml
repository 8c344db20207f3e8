[package]
name = "eventual_io"
version = "0.1.0"
edition = "2021"
publish = false

[dependencies]
bytes = "1"
eventual = "=0.1.7"
mio = "0.6"
slab = "=0.1.3"
