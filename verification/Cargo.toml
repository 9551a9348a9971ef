[package]
name = "sorbit_derive_impl"
version = "0.1.0"
edition = "2021"
publish = false

[dependencies]
petgraph = "*"
textwrap = "*"
syn = { version = "2", features = ["full", "extra-traits"] }
quote = "1"
proc-macro2 = "1"
