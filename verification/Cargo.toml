[package]
name = "proof_of_sql"
version = "0.1.0"
edition = "2021"
publish = false

[dependencies]
rayon = "*"
sha2 = "*"
