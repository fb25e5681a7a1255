[package]
name = "esm_generate"
version = "0.1.0"
edition = "2021"
publish = false

[dependencies]
farmfe_core = "=0.7.3"
