[package]
name = "utu"
version = "0.1.0"
edition = "2021"
publish = false

[dependencies]
unicode-width = "=0.2.2"
tuinix = "0.2"
nojson = "=0.3.15"
orfail = "=2.0.0"
noargs = "=0.4.3"
nopng = "=0.0.1"
