[package]
name = "json_ld"
version = "0.1.0"
edition = "2021"
publish = false

[dependencies]
iref = "2"
langtag = "0.2"
futures = "0.3"
