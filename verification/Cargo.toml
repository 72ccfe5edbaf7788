[package]
name = "stack_lang"
version = "0.1.0"
edition = "2021"
publish = false

[dependencies]
rand = "=0.10.3"
regex = "=1.13.1"
rayon = "=1.12.0"
clap = "=4.6.7"
rustc_apfloat = "=0.2.3"
astro-float = "=0.9.6"
