[package]
name = "checker"
version = "0.1.0"
edition = "2021"
publish = false

[dependencies]
clap = "=2.34.0"
colored = "=2.2.0"
opltypes = "=0.1.0"
rayon = "=1.12.0"
walkdir = "=2.5.0"
