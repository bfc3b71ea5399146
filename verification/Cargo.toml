[package]
name = "dpm"
version = "0.1.0"
edition = "2021"
publish = false

[dependencies]
md-5 = "=0.11.0"
regex = "=1.13.1"
dirs = "=7.0.0"
uzers = "=0.12.2"
walkdir = "=2.5.0"
