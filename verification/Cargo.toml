[package]
name = "contract_usage"
version = "0.1.0"
edition = "2021"
publish = false

[dependencies]
hex = "*"
prost = "*"
substreams = "*"
substreams-ethereum = "*"
substreams-entity-change = "*"
