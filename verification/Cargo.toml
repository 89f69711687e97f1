[package]
name = "x509_path"
version = "0.1.0"
edition = "2021"
publish = false

[dependencies]
asn1 = "*"

[dev-dependencies]
pem = "*"
