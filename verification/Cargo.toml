[package]
name = "text_engine"
version = "0.1.0"
edition = "2021"
publish = false

[dependencies]
icu = "1"
freetype-rs = "*"
harfbuzz-sys = "0.6"
