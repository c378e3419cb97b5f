[package]
name = "contract_watch"
version = "0.1.0"
edition = "2021"
publish = false

[dependencies]
syn = { version = "2", features = ["full", "visit"] }
quote = "1"
proc-macro2 = "1"
prettyplease = "0.2"
notify = "6"
