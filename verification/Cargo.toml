[package]
name = "vault_core"
version = "0.1.0"
edition = "2021"
publish = false

[dependencies]
candid = "=0.10.37"
ic-cdk = "=0.20.3"
ic-cdk-macros = "=0.20.3"
ic-cdk-management-canister = "*"
ic-stable-structures = "=0.7.2"
ic-vetkeys = "=0.9.0"
serde = "*"
