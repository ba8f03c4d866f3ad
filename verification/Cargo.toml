[package]
name = "krb5_kdc"
version = "0.1.0"
edition = "2021"
publish = false

[dependencies]
md-5 = "0.10"
sha2 = "0.10"
getrandom = "0.2"
nix = { version = "0.29", features = ["user"] }
signal-hook = "0.3"
thiserror = "1"
tracing = "0.1"
tracing-subscriber = "0.3"
