[package]
name = "game_of_life_core"
version = "0.1.0"
edition = "2021"
publish = false

[dependencies]
rand = { version = "0.8", default-features = false }
rand_xoshiro = "0.6"
wasm-bindgen = "0.2"
console_error_panic_hook = "0.1"
