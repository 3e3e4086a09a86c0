[package]
name = "tap_tempo"
version = "0.1.0"
edition = "2021"
publish = false

[dependencies]
itertools = "*"
thiserror = "*"
web-time = "*"
console_error_panic_hook = "*"
leptos = "*"
leptos-use = "*"
