[package]
name = "grub_md"
version = "0.1.0"
edition = "2021"
publish = false

[dependencies]
scraper = "*"
ego-tree = "*"
url = "*"
pyo3 = "*"
