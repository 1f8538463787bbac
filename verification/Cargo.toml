[package]
name = "orderless"
version = "0.1.0"
edition = "2021"
publish = false

[dependencies]
indexmap = "*"
darling = "*"
syn = "*"
quote = "*"
proc-macro2 = "*"
proc-macro-error = "*"
