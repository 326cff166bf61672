[package]
name = "ree_lending_demo_backend"
version = "0.1.0"
edition = "2021"
publish = false

[dependencies]
hex = "*"
serde = { version = "*", features = ["derive"] }
candid = "*"
thiserror = "*"
ic-cdk = "*"
ic-cdk-macros = "*"
ree-types = "*"
ree-exchange-sdk = "*"
