[package]
name = "il2_iltags"
version = "0.1.0"
edition = "2021"
publish = false
