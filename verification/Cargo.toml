[package]
name = "selector_engine"
version = "0.1.0"
edition = "2021"
publish = false

[dependencies]
cssparser = "*"
html5ever = "*"
precomputed-hash = "*"
selectors = "*"
smallvec = "*"
