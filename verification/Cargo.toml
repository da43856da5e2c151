[package]
name = "oid-registry"
version = "0.1.0"
edition = "2021"
publish = false

[dependencies]
asn1-rs = "*"
der-parser = "*"
