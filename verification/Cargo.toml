[package]
name = "chord_charts"
version = "0.1.0"
edition = "2021"
publish = false

[dependencies]
markup = "=0.11.0"
pest = "2"
pest_derive = "2"
serde = "=1.0.229"
serde_derive = "=1.0.229"
serde_cbor = "=0.11.2"
