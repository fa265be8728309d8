[package]
name = "sqlite_xsv"
version = "0.1.0"
edition = "2021"
publish = false

[dependencies]
flate2 = "*"
zstd = "*"
glob = "*"
sqlite-loadable = "*"

[dev-dependencies]
csv = "*"
