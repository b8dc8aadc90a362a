[package]
name = "cx"
version = "0.1.0"
edition = "2021"
publish = false

[dependencies]
cranelift-codegen = "=0.132.3"
chumsky = { version = "=0.10.1", default-features = false, features = ["std"] }
logos = "=0.15.1"
colored = "=2.2.0"
wait-timeout = "=0.2.1"
