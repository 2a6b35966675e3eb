[package]
name = "lin_rado_turing"
version = "0.1.0"
edition = "2021"
publish = false

[dependencies]
rayon = "1"
clap = "4"
petgraph = "0.6"
