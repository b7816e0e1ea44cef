[package]
name = "broken_md_links"
version = "0.1.0"
edition = "2021"
publish = false

[dependencies]
pulldown-cmark = "*"
regex = "*"
