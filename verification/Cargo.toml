[package]
name = "librmrfd"
version = "0.1.0"
edition = "2021"
publish = false

[dependencies]
openat_ct = "=0.2.0-pre9"
easy-error = "=1.0.0"
log = "=0.4.34"
