[package]
name = "despatma_dependency_container"
version = "0.1.0"
edition = "2021"
publish = false

[dependencies]
proc-macro2 = "1"
quote = "1"
syn = { version = "2", features = ["full", "extra-traits"] }
strsim = "0.11"
proc-macro-error = "1"
