[package]
name = "differential_review"
version = "0.1.0"
edition = "2021"
publish = false

[dependencies]
regex = "=1.13.1"
base64 = "=0.22.1"
unicode-width = "=0.2.3"
textwrap = "0.16"
