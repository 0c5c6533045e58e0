[package]
name = "rpc_dispatch"
version = "0.1.0"
edition = "2021"
publish = false

[dependencies]
anyhow = "=1.0.104"
async-trait = "=0.1.92"
base64 = "=0.13.1"
bb8-redis = "=0.26.0"
log = "=0.4.34"
