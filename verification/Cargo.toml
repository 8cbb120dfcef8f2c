[package]
name = "partial_witness"
version = "0.1.0"
edition = "2021"
publish = false

[dependencies]
actix = "0.13"
itertools = "0.12"
near-async = "=0.26.0"
near-chain-configs = "=0.26.0"
near-crypto = "=0.26.0"
near-primitives = "=0.26.0"
reed-solomon-erasure = "4.0.2"
tracing = "0.1"
