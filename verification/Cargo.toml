[package]
name = "rpp_scan"
version = "0.1.0"
edition = "2021"
publish = false

[dependencies]
base64-simd = "0.8"
bitflags = "2"
jiff = "0.2"
pico-args = "0.5"
regex = "1"
rpp-parser = "*"
serde_json = "1"
smallvec = "1"
urlencoding = "2"
walkdir = "2"

[dev-dependencies]
normalize-path = "0.2"
