[package]
name = "cbeta_pdf_creator"
version = "0.1.0"
edition = "2021"
publish = false

[dependencies]
anyhow = "1"
fontdue = "*"
lopdf = "*"
serde = { version = "1", features = ["derive"] }
unicode-bidi = "*"
unicode-script = "*"
