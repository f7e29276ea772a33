[package]
name = "zoneparser"
version = "0.1.0"
edition = "2021"
publish = false

[dependencies]
bstr = "*"
diffs = "*"
unit-enum = "*"
