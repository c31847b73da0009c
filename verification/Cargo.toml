[package]
name = "bigrag_native"
version = "0.1.0"
edition = "2021"
publish = false

[dependencies]
pulldown-cmark = { version = "0.10", default-features = false }
scraper = "0.19"
lopdf = "0.32"
pdf-extract = "0.7"
image = { version = "0.24", default-features = false, features = ["png", "jpeg", "gif", "bmp", "tiff", "webp"] }
tesseract = "0.15"
rayon = "1"
napi = "2"
napi-derive = "2"
