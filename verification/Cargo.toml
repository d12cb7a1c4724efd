[package]
name = "xodr-qcr"
version = "0.1.0"
edition = "2021"
publish = false

[dependencies]
roxmltree = "=0.19.0"
semver = "=1.0.28"
quick-xml = "=0.41.0"
xsd-schema = "=0.3.0"
clap = { version = "=4.6.7", features = ["derive"] }
