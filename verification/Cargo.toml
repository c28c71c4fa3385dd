[package]
name = "clipstash"
version = "0.1.0"
edition = "2021"
publish = false

[dependencies]
arboard = "=3.6.1"
auto-launch = "*"
directories = "=6.0.0"
