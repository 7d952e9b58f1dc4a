[package]
name = "indexer"
version = "0.1.0"
edition = "2021"
publish = false

[dependencies]
candid = "=0.10.39"
num-bigint = "=0.4.8"
hex = "=0.4.3"
ic-web3-rs = "=0.1.11"
ic-cdk = "=0.13.6"
ic-cdk-timers = "=0.11.1"
ic-stable-memory = "=0.4.4"
serde = "=1.0.229"
