[package]
name = "pdf_text"
version = "0.1.0"
edition = "2021"
publish = false

[dependencies]
lopdf = { version = "*", default-features = false }
ttf-parser = "*"
unicode-bidi = "0.3"
