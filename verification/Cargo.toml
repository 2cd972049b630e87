[package]
name = "routefinder"
version = "0.5.4"
edition = "2021"
publish = false

[dependencies]
memchr = "2"
smartcow = "*"
smartstring = "1"
