[package]
name = "rdftk"
version = "0.1.0"
edition = "2021"
publish = false

[dependencies]
rdftk_iri = { version = "=0.1.9", default-features = false, features = ["uuid_iri"] }
regex = "=1.13.1"
