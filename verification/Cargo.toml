[package]
name = "inpaint"
version = "0.1.0"
edition = "2021"
publish = false

[dependencies]
rustc_apfloat = "=0.2.3"
ndarray = "=0.17.2"
num-traits = "=0.2.19"
thiserror = "=2.0.21"
