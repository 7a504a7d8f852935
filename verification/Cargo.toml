[package]
name = "macroscript"
version = "0.1.0"
edition = "2021"
publish = false

[dependencies]
seahash = "=4.1.0"
regex = "=1.13.1"
rand = "=0.10.3"
rand_pcg = "=0.10.2"
