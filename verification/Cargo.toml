[package]
name = "zkvm_exec"
version = "0.1.0"
edition = "2021"
publish = false

[dependencies]
sha2 = { version = "=0.10.9", features = ["compress"] }
generic-array = "=0.14.9"
crypto-bigint = "=0.5.5"
rrs-lib = "=0.1.0"
