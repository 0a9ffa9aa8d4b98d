[package]
name = "x402_core"
version = "0.1.0"
edition = "2021"
publish = false

[dependencies]
base64 = "0.22"
k256 = "0.13"
alloy-primitives = "*"
