[package]
name = "avm"
version = "0.1.0"
edition = "2021"
publish = false

[dependencies]
semver = "*"
anyhow = "*"
clap = { version = "*", features = ["derive"] }
clap_complete = "*"
quote = "*"
proc-macro2 = "*"
anchor-lang-idl = "*"
serde_json = "*"
