[package]
name = "lumen_core"
version = "0.1.0"
edition = "2021"
publish = false

[dependencies]
blake3 = "*"
image = "=0.25.10"
imagepipe = "=0.5.1"
quickraw = "=0.1.6"
rayon = "=1.12.0"
kolor = "=0.1.9"
imgref = "=1.12.3"
