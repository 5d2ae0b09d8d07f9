[package]
name = "ristinolla"
version = "0.1.0"
edition = "2021"
publish = false

[dependencies]
smallvec = "=1.16.4"
atomic-wait = "=1.1.0"
colored = "=3.1.1"
thiserror = "=2.0.21"
