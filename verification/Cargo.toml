[package]
name = "prop_logic"
version = "0.1.0"
edition = "2021"

[dependencies]
nom = "7"
paw = "1"
structopt = { version = "0.3", features = ["paw"] }
wasm-bindgen = "0.2"
