[package]
name = "cargo_crappy"
version = "0.1.0"
edition = "2021"
publish = false

[dependencies]
syn = { version = "=2.0.119", features = ["full", "visit", "extra-traits", "parsing", "printing"] }
proc-macro2 = { version = "=1.0.107", features = ["span-locations"] }
bourne = "=0.2.1"
json-bourne = "*"
