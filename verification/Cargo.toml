[package]
name = "anita"
version = "0.1.0"
edition = "2021"
publish = false

[dependencies]
cranelift = "=0.123.19"
cranelift-jit = "=0.123.19"
cranelift-module = "=0.123.19"
cranelift-native = "=0.123.19"

[dev-dependencies]
cranelift-interpreter = "=0.123.19"
