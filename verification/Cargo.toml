[package]
name = "solid_slicer"
version = "0.1.0"
edition = "2021"
publish = false

[dependencies]
rstar = "*"
clap = "2"
float-cmp = "0.9"
lyon = "0.17"
stl_io = "*"
svg = "*"
