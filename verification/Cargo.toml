[package]
name = "tispace"
version = "0.1.0"
edition = "2021"
publish = false

[dependencies]
rand = "=0.8.8"
serde = { version = "=1.0.229", features = ["derive"] }
serde_json = "=1.0.151"
k8s_quantity_parser = "=0.1.0"
k8s-openapi = { version = "=0.14.0", default-features = false, features = ["v1_22"] }
