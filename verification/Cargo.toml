[package]
name = "domain_query"
version = "0.1.0"
edition = "2021"
publish = false

[dependencies]
strum = "*"
strum_macros = "*"
thiserror = "*"
