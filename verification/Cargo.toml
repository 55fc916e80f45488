[package]
name = "markdown_to_pdf"
version = "0.1.0"
edition = "2021"
publish = false

[dependencies]
anyhow = "=1.0.104"
printpdf = "=0.7.0"
pulldown-cmark = "=0.12.2"
