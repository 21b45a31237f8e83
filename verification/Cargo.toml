[package]
name = "mach3_to_ucnc"
version = "0.1.0"
edition = "2021"
publish = false
