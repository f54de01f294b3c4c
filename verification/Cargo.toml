[package]
name = "unity_p2p_core"
version = "0.1.0"
edition = "2021"
publish = false

[dependencies]
rand = "*"
bigdecimal = "*"
num-bigint = "*"
num-traits = "*"
