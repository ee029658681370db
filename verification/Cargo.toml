[package]
name = "proxy_token"
version = "0.1.0"
edition = "2021"
publish = false

[dependencies]
ed25519-dalek = "=2.2.0"
k256 = "=0.13.4"
sha3 = "=0.10.9"
ic-cdk = "=0.13.6"
