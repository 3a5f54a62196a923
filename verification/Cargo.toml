[package]
name = "nh3"
version = "0.1.0"
edition = "2021"
publish = false

[dependencies]
ammonia = "=4.2.1"
html5ever = "=0.39.0"
markup5ever_rcdom = "=0.39.0"
url = "=2.5.8"
