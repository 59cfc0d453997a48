[package]
name = "levelgeom"
version = "0.1.0"
edition = "2021"
publish = false

[dependencies]
vtf = "=0.4.1"
image = { version = "=0.25.10", default-features = false }
vbsp = "=0.9.1"
vbsp-entities-tf2 = "=0.6.0"
vmdl = "=0.2.0"
tf-asset-loader = { version = "=0.2.0", features = ["zip"] }
three-d-asset = "=0.10.0"
cgmath = "=0.18.0"
clap = { version = "=4.6.7", features = ["derive"] }
