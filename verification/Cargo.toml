[package]
name = "kaleidoscope"
version = "0.1.0"
edition = "2021"
publish = false

[dependencies]
llvm-sys = { version = "=100.2.4", features = ["no-llvm-linking"] }
