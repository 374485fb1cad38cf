[package]
name = "host_circuits"
version = "0.1.0"
edition = "2021"
publish = false

[dependencies]
halo2_proofs = "0.2.0"
serde = { version = "1", features = ["derive"] }
