[package]
name = "ctf_points"
version = "0.1.0"
edition = "2021"
publish = false
