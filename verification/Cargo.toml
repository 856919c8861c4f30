[package]
name = "dtoolkit"
version = "0.1.0"
edition = "2021"
publish = false

[dependencies]
thiserror = "2"
zerocopy = "0.8"
