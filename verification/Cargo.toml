[package]
name = "jumperless"
version = "0.1.0"
edition = "2021"
publish = false

[dependencies]
heapless = "0.8"
rand = { version = "0.8", default-features = false, features = ["small_rng"] }
proc-macro2 = "1"
quote = "1"
syn = "2"
