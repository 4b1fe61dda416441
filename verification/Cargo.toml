[package]
name = "calculator"
version = "0.1.0"
edition = "2021"

[dependencies]
inkwell = { version = "=0.10.0", features = ["llvm14-0"] }
llvm-sys = { version = "=140.1.3", features = ["force-dynamic"] }
